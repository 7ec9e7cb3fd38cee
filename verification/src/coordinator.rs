//! The consumer's side of the pipeline: it issues requests, takes the
//! responses of the workers and drops the stale ones, keeps the entry
//! snapshot that searches run against, and decides when a search is run
//! again while an index build is still streaming.

use vstd::prelude::*;
use crate::cache::PreviewCache;
use crate::indexer::{Entry, IndexSource};
use crate::preview::{decimal, decimal_digits};
use crate::requests::RequestTracker;
use crate::search::ranked_view;
use crate::text::{blank, chars_of, is_blank, string_of, texts};
use crate::worker::{IndexRequest, SearchRequest};

verus! {

/// How many previews are kept.
pub const PREVIEW_CACHE_MAX: usize = 512;

/// The least time between two searches that are run again because the
/// index grew, in milliseconds.
pub const INCREMENTAL_SEARCH_REFRESH_MS: u64 = 300;

/// How many index messages one poll takes at most.
pub const MAX_MESSAGES_PER_POLL: usize = 12;

/// How long one poll may take, in milliseconds.
pub const POLL_BUDGET_MS: u64 = 4;

/// What the index worker sends.
#[derive(Debug, Clone)]
pub enum IndexResponse {
    Started { request_id: u64, source: IndexSource },
    Batch { request_id: u64, entries: Vec<Entry> },
    Finished { request_id: u64, source: IndexSource },
    Failed { request_id: u64, error: String },
}

impl IndexResponse {
    pub open spec fn id(self) -> u64 {
        match self {
            IndexResponse::Started { request_id, .. } => request_id,
            IndexResponse::Batch { request_id, .. } => request_id,
            IndexResponse::Finished { request_id, .. } => request_id,
            IndexResponse::Failed { request_id, .. } => request_id,
        }
    }

    pub fn request_id(&self) -> (id: u64)
        ensures
            id == self.id(),
    {
        match self {
            IndexResponse::Started { request_id, .. } => *request_id,
            IndexResponse::Batch { request_id, .. } => *request_id,
            IndexResponse::Finished { request_id, .. } => *request_id,
            IndexResponse::Failed { request_id, .. } => *request_id,
        }
    }
}

/// What the search worker sends: the results, or the error of the query.
#[derive(Debug, Clone)]
pub struct SearchResponse {
    pub request_id: u64,
    pub results: Vec<(String, i128)>,
    pub error: Option<String>,
}

/// What the manifest worker sends: where the manifest was written and how
/// many entries it lists, or why it could not be written.
#[derive(Debug, Clone)]
pub enum FileListResponse {
    Finished { request_id: u64, root: String, path: String, count: usize },
    Failed { request_id: u64, root: String, error: String },
}

impl FileListResponse {
    pub open spec fn id(self) -> u64 {
        match self {
            FileListResponse::Finished { request_id, .. } => request_id,
            FileListResponse::Failed { request_id, .. } => request_id,
        }
    }

    /// The root that the manifest was written for.
    pub open spec fn for_root(self) -> String {
        match self {
            FileListResponse::Finished { root, .. } => root,
            FileListResponse::Failed { root, .. } => root,
        }
    }

    pub fn request_id(&self) -> (id: u64)
        ensures
            id == self.id(),
    {
        match self {
            FileListResponse::Finished { request_id, .. } => *request_id,
            FileListResponse::Failed { request_id, .. } => *request_id,
        }
    }
}

/// What taking a message of the manifest worker led to.
#[derive(Clone, Copy, PartialEq, Eq, Structural, Debug)]
pub enum FileListOutcome {
    /// The message belonged to a request that is no longer pending.
    Stale,
    /// The manifest was written. Where it belongs to the current root and
    /// manifests are in use, the index is rebuilt: the id of that request.
    Created(Option<u64>),
    /// The manifest could not be written.
    Failed,
}

/// What taking an index message led to.
#[derive(Clone, Copy, PartialEq, Eq, Structural, Debug)]
pub enum IndexOutcome {
    /// The message belonged to a request that is no longer pending.
    Stale,
    /// The source of the build is known.
    Started,
    /// Entries were added to the growing index.
    Grew,
    /// The build is complete. Where the query is not blank a search was
    /// issued against the finished snapshot: its id.
    Finished(Option<u64>),
    /// The build failed.
    Failed,
}

/// The paths among `found` whose kind is switched on, in order.
pub open spec fn kept(found: Seq<Entry>, include_files: bool, include_dirs: bool) -> Seq<Seq<char>>
    decreases found.len(),
{
    if found.len() == 0 {
        Seq::empty()
    } else {
        let before = kept(found.drop_last(), include_files, include_dirs);
        let e = found.last();
        if (e.is_dir && include_dirs) || (!e.is_dir && include_files) {
            before.push(e.path@)
        } else {
            before
        }
    }
}

/// The paths of the entries whose kind is switched on.
pub fn filtered_entries(source: &Vec<Entry>, include_files: bool, include_dirs: bool) -> (r: Vec<
    String,
>)
    ensures
        texts(r@) == kept(source@, include_files, include_dirs),
{
    let mut out: Vec<String> = Vec::new();
    let mut i: usize = 0;
    assert(texts(out@) =~= Seq::<Seq<char>>::empty());
    while i < source.len()
        invariant
            i <= source.len(),
            texts(out@) == kept(source@.take(i as int), include_files, include_dirs),
        decreases source.len() - i,
    {
        assert(source@.take(i + 1).drop_last() =~= source@.take(i as int));
        let e = &source[i];
        if (e.is_dir && include_dirs) || (!e.is_dir && include_files) {
            let ghost before = texts(out@);
            out.push(e.path.clone());
            assert(texts(out@) =~= before.push(e.path@));
        }
        i += 1;
    }
    assert(source@.take(source.len() as int) =~= source@);
    out
}

fn copy_texts(list: &Vec<String>) -> (r: Vec<String>)
    ensures
        texts(r@) == texts(list@),
{
    let mut out: Vec<String> = Vec::new();
    let mut i: usize = 0;
    while i < list.len()
        invariant
            i <= list.len(),
            out@.len() == i,
            forall|k: int| 0 <= k < i ==> out@[k]@ == list@[k]@,
        decreases list.len() - i,
    {
        out.push(list[i].clone());
        i += 1;
    }
    assert(texts(out@) =~= texts(list@));
    out
}

/// The list shown for a blank query: the first `limit` entries, each with
/// score 0.
pub open spec fn browse_list(entries: Seq<Seq<char>>, limit: nat) -> Seq<(Seq<char>, int)> {
    Seq::new(
        if limit < entries.len() {
            limit
        } else {
            entries.len()
        },
        |i: int| (entries[i], 0int),
    )
}

/// The first `limit` entries as a result list, each with score 0.
pub fn browse_results(entries: &Vec<String>, limit: usize) -> (r: Vec<(String, i128)>)
    ensures
        ranked_view(r@) == browse_list(texts(entries@), limit as nat),
{
    let n: usize = if limit < entries.len() {
        limit
    } else {
        entries.len()
    };
    let mut out: Vec<(String, i128)> = Vec::new();
    let mut i: usize = 0;
    while i < n
        invariant
            i <= n <= entries.len(),
            out@.len() == i,
            forall|k: int| 0 <= k < i ==> out@[k].0@ == entries@[k]@ && out@[k].1 == 0,
        decreases n - i,
    {
        out.push((entries[i].clone(), 0));
        i += 1;
    }
    assert(ranked_view(out@) =~= browse_list(texts(entries@), limit as nat));
    out
}

/// Whether a poll that has taken `processed` messages in `elapsed_ms` may
/// take another one.
pub fn poll_may_continue(processed: usize, elapsed_ms: u64) -> (go_on: bool)
    ensures
        go_on == (processed < MAX_MESSAGES_PER_POLL && elapsed_ms < POLL_BUDGET_MS),
{
    processed < MAX_MESSAGES_PER_POLL && elapsed_ms < POLL_BUDGET_MS
}

/// The state of the consumer.
pub struct Coordinator {
    pub root: String,
    pub query: String,
    pub limit: usize,
    pub use_regex: bool,
    pub use_filelist: bool,
    pub include_files: bool,
    pub include_dirs: bool,
    pub index_requests: RequestTracker,
    pub search_requests: RequestTracker,
    pub preview_requests: RequestTracker,
    pub filelist_requests: RequestTracker,
    /// The root that the pending manifest is written for.
    pub pending_filelist_root: Option<String>,
    /// Where the entries of the current build come from.
    pub source: IndexSource,
    /// The entries that the build in progress has sent so far.
    pub incoming: Vec<Entry>,
    /// The entries of the last build that finished.
    pub all_entries: Vec<Entry>,
    /// The snapshot that searches run against.
    pub entries: Vec<String>,
    /// The list on display.
    pub results: Vec<(String, i128)>,
    pub notice: String,
    /// A search waits for the first batch of a fresh index build.
    pub search_resume_pending: bool,
    pub last_snapshot_len: usize,
    pub last_refresh_ms: u64,
    pub previews: PreviewCache,
}

impl Coordinator {
    /// The trackers and the cache are well formed.
    pub open spec fn wf(&self) -> bool {
        &&& self.index_requests.wf()
        &&& self.search_requests.wf()
        &&& self.preview_requests.wf()
        &&& self.filelist_requests.wf()
        &&& self.previews.wf()
    }

    /// `post` is `pre` after a new index build was requested at `now_ms`.
    pub open spec fn refreshed(pre: Coordinator, post: Coordinator, now_ms: u64) -> bool {
        &&& post.previews.slots@.len() == 0
        &&& post.previews.capacity == pre.previews.capacity
        &&& post.incoming@.len() == 0
        &&& post == (Coordinator {
            include_files: pre.include_files || !pre.include_dirs,
            index_requests: pre.index_requests.issued(),
            search_requests: pre.search_requests.cancelled(),
            preview_requests: pre.preview_requests.cancelled(),
            source: IndexSource::Nothing,
            incoming: post.incoming,
            search_resume_pending: !blank(pre.query@),
            last_snapshot_len: 0,
            last_refresh_ms: now_ms,
            previews: post.previews,
            ..pre
        })
    }

    /// A coordinator with nothing indexed and nothing pending. The limit is
    /// held between 1 and 1000.
    pub fn new(root: String, limit: usize, query: String, now_ms: u64) -> (c: Self)
        ensures
            c.wf(),
            c.root == root,
            c.query == query,
            c.filelist_requests == (RequestTracker { next_id: 1, pending: None }),
            c.pending_filelist_root is None,
            c.limit == (if limit < 1 {
                1usize
            } else if limit > 1000 {
                1000usize
            } else {
                limit
            }),
            c.index_requests == (RequestTracker { next_id: 1, pending: None }),
            c.search_requests == (RequestTracker { next_id: 1, pending: None }),
            c.preview_requests == (RequestTracker { next_id: 1, pending: None }),
            c.include_files && c.include_dirs && !c.use_regex && !c.use_filelist,
            c.source is Nothing,
            c.incoming@.len() == 0 && c.all_entries@.len() == 0 && c.entries@.len() == 0
                && c.results@.len() == 0,
            c.notice@.len() == 0,
            !c.search_resume_pending,
            c.last_refresh_ms == now_ms,
            c.previews.capacity == PREVIEW_CACHE_MAX,
    {
        Coordinator {
            root,
            query,
            limit: if limit < 1 {
                1
            } else if limit > 1000 {
                1000
            } else {
                limit
            },
            use_regex: false,
            use_filelist: false,
            include_files: true,
            include_dirs: true,
            index_requests: RequestTracker::new(),
            search_requests: RequestTracker::new(),
            preview_requests: RequestTracker::new(),
            filelist_requests: RequestTracker::new(),
            pending_filelist_root: None,
            source: IndexSource::Nothing,
            incoming: Vec::new(),
            all_entries: Vec::new(),
            entries: Vec::new(),
            results: Vec::new(),
            notice: String::new(),
            search_resume_pending: false,
            last_snapshot_len: 0,
            last_refresh_ms: now_ms,
            previews: PreviewCache::new(PREVIEW_CACHE_MAX),
        }
    }

    /// Paths are shown from the root once the source of the index is known.
    pub fn prefer_relative_display(&self) -> (r: bool)
        ensures
            r == (self.source is Walker || self.source is FileList),
    {
        match &self.source {
            IndexSource::Walker => true,
            IndexSource::FileList(_) => true,
            IndexSource::Nothing => false,
        }
    }

    /// The index request that goes to the worker under the given id: for
    /// the current root, with files and directories both asked for, since
    /// the kinds are filtered on this side.
    pub fn index_request(&self, request_id: u64) -> (req: IndexRequest)
        ensures
            req.request_id == request_id,
            req.root@ == self.root@,
            req.use_filelist == self.use_filelist,
            req.include_files && req.include_dirs,
    {
        IndexRequest {
            request_id,
            root: self.root.clone(),
            use_filelist: self.use_filelist,
            include_files: true,
            include_dirs: true,
        }
    }

    /// The search request that goes to the worker under the given id: the
    /// query as it stands, against the current snapshot.
    pub fn search_request(&self, request_id: u64) -> (req: SearchRequest)
        ensures
            req.request_id == request_id,
            req.query@ == self.query@,
            texts(req.entries@) == texts(self.entries@),
            req.limit == self.limit,
            req.use_regex == self.use_regex,
            req.root@ == self.root@,
            req.prefer_relative == (self.source is Walker || self.source is FileList),
    {
        SearchRequest {
            request_id,
            query: self.query.clone(),
            entries: copy_texts(&self.entries),
            limit: self.limit,
            use_regex: self.use_regex,
            root: self.root.clone(),
            prefer_relative: self.prefer_relative_display(),
        }
    }

    fn query_is_blank(&self) -> (r: bool)
        ensures
            r == blank(self.query@),
    {
        is_blank(&chars_of(self.query.as_str()))
    }

    /// Starts a new index build and returns its id. A search in flight is
    /// given up, since it ran against the old snapshot; so is a preview, and
    /// the preview cache is emptied. The list on display stays until new
    /// results arrive. With files and directories both switched off, files
    /// are switched on again.
    pub fn request_index_refresh(&mut self, now_ms: u64) -> (id: u64)
        requires
            old(self).wf(),
        ensures
            final(self).wf(),
            id == old(self).index_requests.next_id,
            Self::refreshed(*old(self), *final(self), now_ms),
    {
        if !self.include_files && !self.include_dirs {
            self.include_files = true;
        }
        let id = self.index_requests.issue();
        self.search_requests.cancel();
        self.search_resume_pending = !self.query_is_blank();
        self.incoming.clear();
        self.source = IndexSource::Nothing;
        self.previews.clear();
        self.preview_requests.cancel();
        self.last_refresh_ms = now_ms;
        self.last_snapshot_len = 0;
        id
    }

    /// Moves to another root: the index is rebuilt there, and the id of
    /// that request is returned. The same root again changes nothing.
    pub fn apply_root_change(&mut self, new_root: String, now_ms: u64) -> (issued: Option<u64>)
        requires
            old(self).wf(),
        ensures
            final(self).wf(),
            new_root@ == old(self).root@ ==> issued is None && *final(self) == *old(self),
            new_root@ != old(self).root@ ==> issued == Some(old(self).index_requests.next_id)
                && Self::refreshed(
                (Coordinator { root: new_root, notice: final(self).notice, ..*old(self) }),
                *final(self),
                now_ms,
            ) && final(self).notice@ == "Root changed: "@ + new_root@,
    {
        if new_root == self.root {
            return None;
        }
        self.notice = String::from_str("Root changed: ").concat(new_root.as_str());
        self.root = new_root;
        Some(self.request_index_refresh(now_ms))
    }

    /// Issues the writing of a manifest for the current root and returns
    /// the id of the request.
    pub fn start_filelist_creation(&mut self) -> (id: u64)
        ensures
            id == old(self).filelist_requests.next_id,
            *final(self) == (Coordinator {
                filelist_requests: old(self).filelist_requests.issued(),
                pending_filelist_root: final(self).pending_filelist_root,
                ..*old(self)
            }),
            final(self).pending_filelist_root matches Some(r) && r@ == old(self).root@,
    {
        self.pending_filelist_root = Some(self.root.clone());
        self.filelist_requests.issue()
    }

    /// The manifest worker could not be reached: the request just issued is
    /// given up.
    pub fn filelist_worker_unavailable(&mut self)
        ensures
            *final(self) == (Coordinator {
                filelist_requests: old(self).filelist_requests.cancelled(),
                pending_filelist_root: None,
                notice: final(self).notice,
                ..*old(self)
            }),
            final(self).notice@ == "Create File List worker is unavailable"@,
    {
        self.filelist_requests.cancel();
        self.pending_filelist_root = None;
        self.notice = String::from_str("Create File List worker is unavailable");
    }

    /// The response is for the root that the manifest was asked for, and
    /// that is still the current root.
    pub open spec fn for_current_root(&self, response_root: Seq<char>) -> bool {
        (self.pending_filelist_root matches Some(r) ==> r@ == response_root) && self.root@
            == response_root
    }

    /// Takes a message of the manifest worker. One whose id is not the
    /// pending one changes nothing. An accepted one settles the request and
    /// becomes the notice. A manifest written for the current root, with
    /// manifests in use, has the index rebuilt from it.
    pub fn handle_filelist_response(&mut self, response: FileListResponse, now_ms: u64) -> (out:
        FileListOutcome)
        requires
            old(self).wf(),
        ensures
            final(self).wf(),
            !old(self).filelist_requests.accepts(response.id()) ==> out == FileListOutcome::Stale
                && *final(self) == *old(self),
            old(self).filelist_requests.accepts(response.id()) ==> {
                let settled = (Coordinator {
                    filelist_requests: old(self).filelist_requests.cancelled(),
                    pending_filelist_root: None,
                    notice: final(self).notice,
                    ..*old(self)
                });
                let current = old(self).for_current_root(response.for_root()@);
                match response {
                    FileListResponse::Finished { path, count, .. } => {
                        &&& final(self).notice@ == "Created "@ + path@ + ": "@ + decimal(
                            count as nat,
                        ) + (if current {
                            " entries"@
                        } else {
                            " entries (previous root)"@
                        })
                        &&& if current && old(self).use_filelist {
                            out == FileListOutcome::Created(Some(old(self).index_requests.next_id))
                                && Self::refreshed(settled, *final(self), now_ms)
                        } else {
                            out == FileListOutcome::Created(None) && *final(self) == settled
                        }
                    },
                    FileListResponse::Failed { error, .. } => {
                        &&& out == FileListOutcome::Failed
                        &&& *final(self) == settled
                        &&& final(self).notice@ == (if current {
                            "Create File List failed: "@
                        } else {
                            "Create File List failed for previous root: "@
                        }) + error@
                    },
                }
            },
    {
        if !self.filelist_requests.accept(response.request_id()) {
            return FileListOutcome::Stale;
        }
        match response {
            FileListResponse::Finished { request_id: _, root, path, count } => {
                let current = (match &self.pending_filelist_root {
                    Some(r) => *r == root,
                    None => true,
                }) && self.root == root;
                self.pending_filelist_root = None;
                let head = String::from_str("Created ").concat(path.as_str()).concat(": ").concat(
                    string_of(&decimal_digits(count)).as_str(),
                );
                if !current {
                    self.notice = head.concat(" entries (previous root)");
                    return FileListOutcome::Created(None);
                }
                self.notice = head.concat(" entries");
                if self.use_filelist {
                    FileListOutcome::Created(Some(self.request_index_refresh(now_ms)))
                } else {
                    FileListOutcome::Created(None)
                }
            },
            FileListResponse::Failed { request_id: _, root, error } => {
                let current = (match &self.pending_filelist_root {
                    Some(r) => *r == root,
                    None => true,
                }) && self.root == root;
                self.pending_filelist_root = None;
                self.notice = String::from_str(
                    if current {
                        "Create File List failed: "
                    } else {
                        "Create File List failed for previous root: "
                    },
                ).concat(error.as_str());
                FileListOutcome::Failed
            },
        }
    }

    /// The index worker could not be reached: the request just issued is
    /// given up.
    pub fn index_worker_unavailable(&mut self)
        ensures
            *final(self) == (Coordinator {
                index_requests: old(self).index_requests.cancelled(),
                notice: final(self).notice,
                ..*old(self)
            }),
            final(self).notice@ == "Index worker is unavailable"@,
    {
        self.index_requests.cancel();
        self.notice = String::from_str("Index worker is unavailable");
    }

    /// Issues a search against the current snapshot and returns its id.
    pub fn enqueue_search_request(&mut self) -> (id: u64)
        ensures
            id == old(self).search_requests.next_id,
            *final(self) == (Coordinator {
                search_requests: old(self).search_requests.issued(),
                ..*old(self)
            }),
    {
        self.search_requests.issue()
    }

    /// The search worker could not be reached: the request just issued is
    /// given up.
    pub fn search_worker_unavailable(&mut self)
        ensures
            *final(self) == (Coordinator {
                search_requests: old(self).search_requests.cancelled(),
                notice: final(self).notice,
                ..*old(self)
            }),
            final(self).notice@ == "Search worker is unavailable"@,
    {
        self.search_requests.cancel();
        self.notice = String::from_str("Search worker is unavailable");
    }

    /// Brings the list on display in line with the query: a blank query
    /// shows the first entries of the snapshot at once and gives up any
    /// search in flight; any other query issues a search, whose id is
    /// returned.
    pub fn update_results(&mut self) -> (issued: Option<u64>)
        ensures
            blank(old(self).query@) ==> issued is None && *final(self) == (Coordinator {
                search_requests: old(self).search_requests.cancelled(),
                results: final(self).results,
                ..*old(self)
            }) && ranked_view(final(self).results@) == browse_list(
                texts(old(self).entries@),
                old(self).limit as nat,
            ),
            !blank(old(self).query@) ==> issued == Some(old(self).search_requests.next_id)
                && *final(self) == (Coordinator {
                search_requests: old(self).search_requests.issued(),
                ..*old(self)
            }),
    {
        if self.query_is_blank() {
            self.search_requests.cancel();
            self.results = browse_results(&self.entries, self.limit);
            None
        } else {
            Some(self.enqueue_search_request())
        }
    }

    /// Takes one message of the index worker. A message whose id is not
    /// the pending one changes nothing.
    pub fn handle_index_response(&mut self, msg: IndexResponse) -> (out: IndexOutcome)
        requires
            old(self).wf(),
        ensures
            final(self).wf(),
            !old(self).index_requests.accepts(msg.id()) ==> out == IndexOutcome::Stale
                && *final(self) == *old(self),
            old(self).index_requests.accepts(msg.id()) ==> match msg {
                IndexResponse::Started { source, .. } => out == IndexOutcome::Started
                    && *final(self) == (Coordinator { source: source, ..*old(self) }),
                IndexResponse::Batch { entries, .. } => out == IndexOutcome::Grew
                    && *final(self) == (Coordinator {
                    incoming: final(self).incoming,
                    ..*old(self)
                }) && final(self).incoming@ == old(self).incoming@ + entries@,
                IndexResponse::Finished { source, .. } => {
                    &&& out is Finished
                    &&& final(self).all_entries@ == old(self).incoming@
                    &&& final(self).incoming@.len() == 0
                    &&& texts(final(self).entries@) == kept(
                        old(self).incoming@,
                        old(self).include_files,
                        old(self).include_dirs,
                    )
                    &&& final(self).notice@.len() == 0
                    &&& *final(self) == (Coordinator {
                        source: source,
                        index_requests: old(self).index_requests.cancelled(),
                        search_requests: final(self).search_requests,
                        incoming: final(self).incoming,
                        all_entries: final(self).all_entries,
                        entries: final(self).entries,
                        results: final(self).results,
                        notice: final(self).notice,
                        search_resume_pending: false,
                        last_snapshot_len: old(self).incoming.len(),
                        ..*old(self)
                    })
                    &&& blank(old(self).query@) ==> {
                        &&& out == IndexOutcome::Finished(None)
                        &&& final(self).search_requests == old(self).search_requests.cancelled()
                        &&& ranked_view(final(self).results@) == browse_list(
                            texts(final(self).entries@),
                            old(self).limit as nat,
                        )
                    }
                    &&& !blank(old(self).query@) ==> {
                        &&& out == IndexOutcome::Finished(Some(old(self).search_requests.next_id))
                        &&& final(self).search_requests == old(self).search_requests.issued()
                        &&& final(self).results == old(self).results
                    }
                },
                IndexResponse::Failed { error, .. } => out == IndexOutcome::Failed
                    && *final(self) == (Coordinator {
                    index_requests: old(self).index_requests.cancelled(),
                    notice: final(self).notice,
                    search_resume_pending: false,
                    ..*old(self)
                }) && final(self).notice@ == "Indexing failed: "@ + error@,
            },
    {
        if !self.index_requests.is_pending(msg.request_id()) {
            return IndexOutcome::Stale;
        }
        match msg {
            IndexResponse::Started { request_id: _, source } => {
                self.source = source;
                IndexOutcome::Started
            },
            IndexResponse::Batch { request_id: _, entries } => {
                let mut batch = entries;
                self.incoming.append(&mut batch);
                IndexOutcome::Grew
            },
            IndexResponse::Finished { request_id, source } => {
                self.source = source;
                let mut finished: Vec<Entry> = Vec::new();
                finished.append(&mut self.incoming);
                self.all_entries = finished;
                self.last_snapshot_len = self.all_entries.len();
                let _ = self.index_requests.accept(request_id);
                self.entries = filtered_entries(
                    &self.all_entries,
                    self.include_files,
                    self.include_dirs,
                );
                let issued = self.update_results();
                self.search_resume_pending = false;
                self.notice = String::new();
                IndexOutcome::Finished(issued)
            },
            IndexResponse::Failed { request_id, error } => {
                let _ = self.index_requests.accept(request_id);
                self.search_resume_pending = false;
                self.notice = String::from_str("Indexing failed: ").concat(error.as_str());
                IndexOutcome::Failed
            },
        }
    }

    /// Whether a search is due now that the index has grown: at once where
    /// one waits for the first batch of a fresh build, else only where the
    /// index has grown since the last snapshot and the throttle window has
    /// passed.
    pub open spec fn search_is_due(&self, now_ms: u64) -> bool {
        self.search_resume_pending || (self.incoming@.len() > self.last_snapshot_len && now_ms
            - self.last_refresh_ms >= INCREMENTAL_SEARCH_REFRESH_MS)
    }

    /// Refreshes the list after a poll that took batches of a build still in
    /// progress. A blank query shows the first entries of the growing index
    /// at once. Any other query is run again where a search is due: the
    /// snapshot is renewed and the id of the search returned.
    pub fn refresh_after_batches(&mut self, now_ms: u64) -> (issued: Option<u64>)
        ensures
            blank(old(self).query@) ==> {
                &&& issued is None
                &&& *final(self) == (Coordinator {
                    search_requests: old(self).search_requests.cancelled(),
                    entries: final(self).entries,
                    results: final(self).results,
                    ..*old(self)
                })
                &&& texts(final(self).entries@) == kept(
                    old(self).incoming@,
                    old(self).include_files,
                    old(self).include_dirs,
                )
                &&& ranked_view(final(self).results@) == browse_list(
                    texts(final(self).entries@),
                    old(self).limit as nat,
                )
            },
            !blank(old(self).query@) && old(self).search_is_due(now_ms) ==> {
                &&& issued == Some(old(self).search_requests.next_id)
                &&& *final(self) == (Coordinator {
                    search_requests: old(self).search_requests.issued(),
                    entries: final(self).entries,
                    search_resume_pending: false,
                    last_snapshot_len: final(self).entries.len(),
                    last_refresh_ms: now_ms,
                    ..*old(self)
                })
                &&& texts(final(self).entries@) == kept(
                    old(self).incoming@,
                    old(self).include_files,
                    old(self).include_dirs,
                )
            },
            !blank(old(self).query@) && !old(self).search_is_due(now_ms) ==> issued is None
                && *final(self) == *old(self),
    {
        if self.query_is_blank() {
            self.search_requests.cancel();
            self.entries = filtered_entries(&self.incoming, self.include_files, self.include_dirs);
            self.results = browse_results(&self.entries, self.limit);
            return None;
        }
        let grown = self.incoming.len() > self.last_snapshot_len;
        let waited = now_ms >= self.last_refresh_ms && now_ms - self.last_refresh_ms
            >= INCREMENTAL_SEARCH_REFRESH_MS;
        if self.search_resume_pending || (grown && waited) {
            self.entries = filtered_entries(&self.incoming, self.include_files, self.include_dirs);
            self.last_snapshot_len = self.entries.len();
            self.last_refresh_ms = now_ms;
            let id = self.enqueue_search_request();
            self.search_resume_pending = false;
            Some(id)
        } else {
            None
        }
    }

    /// Takes a response of the search worker. One whose id is not the
    /// pending one changes nothing. An accepted result list goes on display;
    /// an accepted error becomes the notice and leaves the list on display
    /// as it is.
    pub fn handle_search_response(&mut self, response: SearchResponse) -> (accepted: bool)
        ensures
            accepted == old(self).search_requests.accepts(response.request_id),
            !accepted ==> *final(self) == *old(self),
            accepted ==> match response.error {
                Some(error) => *final(self) == (Coordinator {
                    search_requests: old(self).search_requests.cancelled(),
                    notice: final(self).notice,
                    ..*old(self)
                }) && final(self).notice@ == "Search failed: "@ + error@,
                None => *final(self) == (Coordinator {
                    search_requests: old(self).search_requests.cancelled(),
                    notice: final(self).notice,
                    results: response.results,
                    ..*old(self)
                }) && final(self).notice@.len() == 0,
            },
    {
        if !self.search_requests.accept(response.request_id) {
            return false;
        }
        match response.error {
            Some(error) => {
                self.notice = String::from_str("Search failed: ").concat(error.as_str());
            },
            None => {
                self.notice = String::new();
                self.results = response.results;
            },
        }
        true
    }

    /// Stores a preview in the bounded cache: a cached path keeps its place
    /// and gets the new text; a new path goes to the back, and from a full
    /// cache the oldest path leaves while the others stay.
    pub fn cache_preview(&mut self, path: String, preview: String)
        requires
            old(self).previews.wf(),
        ensures
            final(self).previews.wf(),
            PreviewCache::stored(old(self).previews, final(self).previews, path@, preview@),
            old(self).previews.capacity > 0 ==> final(self).previews.lookup(path@) == Some(
                preview@,
            ),
            *final(self) == (Coordinator { previews: final(self).previews, ..*old(self) }),
    {
        self.previews.insert(path, preview);
    }

    /// Asks for the preview of `path`: the cached text where there is one,
    /// and then nothing is pending; else the id of a new preview request.
    pub fn request_preview(&mut self, path: &str) -> (r: Result<String, u64>)
        ensures
            match r {
                Ok(text) => old(self).previews.lookup(path@) == Some(text@) && *final(self) == (
                Coordinator {
                    preview_requests: old(self).preview_requests.cancelled(),
                    ..*old(self)
                }),
                Err(id) => old(self).previews.lookup(path@) is None && id == old(
                    self,
                ).preview_requests.next_id && *final(self) == (Coordinator {
                    preview_requests: old(self).preview_requests.issued(),
                    ..*old(self)
                }),
            },
    {
        match self.previews.get(path) {
            Some(text) => {
                self.preview_requests.cancel();
                Ok(text)
            },
            None => Err(self.preview_requests.issue()),
        }
    }

    /// Takes a response of the preview worker: a stale one changes nothing,
    /// an accepted one is cached.
    pub fn handle_preview_response(
        &mut self,
        request_id: u64,
        path: String,
        preview: String,
    ) -> (accepted: bool)
        requires
            old(self).previews.wf(),
        ensures
            accepted == old(self).preview_requests.accepts(request_id),
            !accepted ==> *final(self) == *old(self),
            accepted ==> final(self).previews.wf() && *final(self) == (Coordinator {
                preview_requests: old(self).preview_requests.cancelled(),
                previews: final(self).previews,
                ..*old(self)
            }) && PreviewCache::stored(
                old(self).previews,
                final(self).previews,
                path@,
                preview@,
            ) && (old(self).previews.capacity > 0 ==> final(self).previews.lookup(path@) == Some(
                preview@,
            )),
    {
        if !self.preview_requests.accept(request_id) {
            return false;
        }
        self.cache_preview(path, preview);
        true
    }
}

} // verus!
