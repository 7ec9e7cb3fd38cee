//! Request ids of one operation class: issued in increasing order, with at
//! most one of them pending, so that a late answer to an old request is
//! recognised and dropped.

use vstd::prelude::*;

verus! {

/// The id counter and the pending id of one operation class.
#[derive(Clone, Copy, PartialEq, Eq, Structural, Debug)]
pub struct RequestTracker {
    pub next_id: u64,
    pub pending: Option<u64>,
}

/// What can happen to a tracker.
#[derive(Clone, Copy, PartialEq, Eq, Structural, Debug)]
pub enum TrackerEvent {
    /// A new request is issued and becomes the pending one.
    Issue,
    /// The pending request, if any, is given up.
    Cancel,
    /// A response with this id arrives.
    Response(u64),
}

impl RequestTracker {
    /// Ids start at 1, and a pending id has been issued.
    pub open spec fn wf(self) -> bool {
        self.next_id >= 1 && (self.pending matches Some(p) ==> 1 <= p <= self.next_id)
    }

    /// The id after `self.next_id`; the counter stops at the largest id.
    pub open spec fn following_id(self) -> u64 {
        if self.next_id < u64::MAX {
            (self.next_id + 1) as u64
        } else {
            self.next_id
        }
    }

    pub open spec fn issued(self) -> RequestTracker {
        RequestTracker { next_id: self.following_id(), pending: Some(self.next_id) }
    }

    pub open spec fn cancelled(self) -> RequestTracker {
        RequestTracker { next_id: self.next_id, pending: None }
    }

    /// A response is accepted exactly if it carries the pending id.
    pub open spec fn accepts(self, id: u64) -> bool {
        self.pending == Some(id)
    }

    pub open spec fn answered(self, id: u64) -> RequestTracker {
        if self.accepts(id) {
            self.cancelled()
        } else {
            self
        }
    }

    pub open spec fn step(self, event: TrackerEvent) -> RequestTracker {
        match event {
            TrackerEvent::Issue => self.issued(),
            TrackerEvent::Cancel => self.cancelled(),
            TrackerEvent::Response(id) => self.answered(id),
        }
    }

    /// The tracker after a sequence of events, oldest first.
    pub open spec fn run(self, events: Seq<TrackerEvent>) -> RequestTracker
        decreases events.len(),
    {
        if events.len() == 0 {
            self
        } else {
            self.run(events.drop_last()).step(events.last())
        }
    }

    /// Every id up to `id` is settled: none of them is pending and none
    /// will be issued again.
    pub open spec fn beyond(self, id: u64) -> bool {
        self.next_id > id && (self.pending matches Some(p) ==> p > id)
    }

    /// A tracker that has issued nothing yet.
    pub fn new() -> (t: Self)
        ensures
            t == (RequestTracker { next_id: 1, pending: None }),
            t.wf(),
    {
        RequestTracker { next_id: 1, pending: None }
    }

    /// Issues the next id and makes it the pending one.
    pub fn issue(&mut self) -> (id: u64)
        ensures
            id == old(self).next_id,
            *final(self) == old(self).issued(),
            old(self).wf() ==> final(self).wf(),
    {
        let id = self.next_id;
        self.next_id = if self.next_id < u64::MAX {
            self.next_id + 1
        } else {
            self.next_id
        };
        self.pending = Some(id);
        id
    }

    /// Gives up the pending request: its response will be dropped.
    pub fn cancel(&mut self)
        ensures
            *final(self) == old(self).cancelled(),
            old(self).wf() ==> final(self).wf(),
    {
        self.pending = None;
    }

    /// Whether `id` is the pending id.
    pub fn is_pending(&self, id: u64) -> (r: bool)
        ensures
            r == self.accepts(id),
    {
        match self.pending {
            Some(p) => p == id,
            None => false,
        }
    }

    /// Whether a request is pending.
    pub fn in_progress(&self) -> (r: bool)
        ensures
            r == self.pending is Some,
    {
        self.pending.is_some()
    }

    /// Takes a response: accepted, and the request settled, exactly if it
    /// carries the pending id; otherwise nothing changes.
    pub fn accept(&mut self, id: u64) -> (accepted: bool)
        ensures
            accepted == old(self).accepts(id),
            *final(self) == old(self).answered(id),
            old(self).wf() ==> final(self).wf(),
    {
        if self.is_pending(id) {
            self.pending = None;
            true
        } else {
            false
        }
    }
}

/// Every event keeps a tracker well formed and keeps settled ids settled.
pub proof fn lemma_step_keeps(t: RequestTracker, event: TrackerEvent, id: u64)
    ensures
        t.wf() ==> t.step(event).wf(),
        t.beyond(id) ==> t.step(event).beyond(id),
        t.step(event).next_id >= t.next_id,
{
}

pub proof fn lemma_run_keeps(t: RequestTracker, events: Seq<TrackerEvent>, id: u64)
    ensures
        t.wf() ==> t.run(events).wf(),
        t.beyond(id) ==> t.run(events).beyond(id),
        t.run(events).next_id >= t.next_id,
    decreases events.len(),
{
    if events.len() > 0 {
        lemma_run_keeps(t, events.drop_last(), id);
        lemma_step_keeps(t.run(events.drop_last()), events.last(), id);
    }
}

/// Once the response to request `b` has been accepted, a response to an
/// older request `a` changes nothing, whatever happened in between.
pub proof fn law_stale_response_is_ignored(
    t: RequestTracker,
    a: u64,
    b: u64,
    later: Seq<TrackerEvent>,
)
    requires
        t.wf(),
        a < b,
        t.accepts(b),
    ensures
        !t.answered(b).run(later).accepts(a),
        t.answered(b).run(later).step(TrackerEvent::Response(a)) == t.answered(b).run(later),
{
    assert(t.answered(b).beyond(a));
    lemma_run_keeps(t.answered(b), later, a);
}

/// Ids are handed out in strictly increasing order and never twice, as
/// long as the counter has not reached its largest value.
pub proof fn law_ids_strictly_increase(t: RequestTracker, between: Seq<TrackerEvent>)
    requires
        t.wf(),
        t.issued().run(between).next_id < u64::MAX,
    ensures
        t.issued().run(between).next_id > t.next_id,
        t.issued().run(between).issued().pending->Some_0 > t.issued().pending->Some_0,
{
    lemma_run_keeps(t.issued(), between, 0);
    lemma_run_keeps(t, Seq::empty(), 0);
}

} // verus!
