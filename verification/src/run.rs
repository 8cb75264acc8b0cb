//! The shared state of one run: the pop-only work queue, the terminal
//! counters, and the error buffer.
//!
//! Concurrency discipline lives in the unverified shell (a lock around this
//! state, one transition at a time); what each transition does to the state
//! is specified and proved here. The central accounting invariant is that
//! every enqueued item is, at any moment, exactly one of: still queued, in
//! a worker's hands, or completed — so when the queue is empty and no
//! worker holds an item, every item has reached a terminal outcome.

use std::collections::VecDeque;
use vstd::prelude::*;
use crate::item::{artifact_path_spec, lemma_artifact_path_injective, WorkItem};
use crate::worker::ErrorRecord;

verus! {

/// No two items share a `(name, version)` key.
pub open spec fn unique_keys(s: Seq<WorkItem>) -> bool {
    forall|i: int, j: int| 0 <= i < j < s.len() ==> s[i].key() != s[j].key()
}

/// Every item is well formed.
pub open spec fn all_wf(s: Seq<WorkItem>) -> bool {
    forall|i: int| 0 <= i < s.len() ==> s[i].wf()
}

/// The pending work, popped from the front by whichever worker asks next.
/// An item is neither duplicated nor dropped: each pop hands out exactly
/// the first remaining item and removes it.
pub struct WorkQueue {
    items: VecDeque<WorkItem>,
}

impl WorkQueue {
    pub closed spec fn view(&self) -> Seq<WorkItem> {
        self.items@
    }

    pub open spec fn wf(&self) -> bool {
        unique_keys(self@) && all_wf(self@)
    }

    pub fn new(items: Vec<WorkItem>) -> (q: WorkQueue)
        ensures
            q@ == items@,
    {
        let ghost orig = items@;
        let mut items = items;
        let mut d: VecDeque<WorkItem> = VecDeque::new();
        while items.len() > 0
            invariant
                d@ + items@ == orig,
            decreases items@.len(),
        {
            let x = items.remove(0);
            d.push_back(x);
            proof {
                assert(d@ + items@ =~= orig);
            }
        }
        proof {
            assert(d@ =~= orig);
        }
        WorkQueue { items: d }
    }

    pub fn len(&self) -> (r: usize)
        ensures
            r == self@.len(),
    {
        self.items.len()
    }

    /// Hand out the next pending item, removing it; `None` signals the
    /// calling worker to terminate.
    pub fn pop(&mut self) -> (r: Option<WorkItem>)
        ensures
            old(self)@.len() == 0 ==> r is None && final(self)@ == old(self)@,
            old(self)@.len() > 0 ==> r == Some(old(self)@[0]) && final(self)@ == old(self)@.skip(
                1,
            ),
    {
        let r = self.items.pop_front();
        proof {
            if old(self)@.len() > 0 {
                assert(self@ =~= old(self)@.skip(1));
            }
        }
        r
    }
}

/// A suffix of a well-formed queue is well formed: popping never breaks
/// uniqueness.
pub proof fn lemma_skip_preserves_wf(s: Seq<WorkItem>)
    requires
        unique_keys(s),
        all_wf(s),
        s.len() > 0,
    ensures
        unique_keys(s.skip(1)),
        all_wf(s.skip(1)),
{
    assert forall|i: int, j: int| 0 <= i < j < s.skip(1).len() implies s.skip(1)[i].key() != s.skip(
        1,
    )[j].key() by {
        assert(s.skip(1)[i] == s[i + 1]);
        assert(s.skip(1)[j] == s[j + 1]);
    }
    assert forall|i: int| 0 <= i < s.skip(1).len() implies s.skip(1)[i].wf() by {
        assert(s.skip(1)[i] == s[i + 1]);
    }
}

/// Two distinct items of one run never share a final artifact path, so no
/// two workers ever write to the same final path.
pub proof fn lemma_no_shared_final_path(s: Seq<WorkItem>, i: int, j: int)
    requires
        unique_keys(s),
        all_wf(s),
        0 <= i < s.len(),
        0 <= j < s.len(),
        i != j,
    ensures
        artifact_path_spec(s[i].name@, s[i].version@) != artifact_path_spec(
            s[j].name@,
            s[j].version@,
        ),
{
    lemma_artifact_path_injective(s[i].name@, s[i].version@, s[j].name@, s[j].version@);
}

/// The mutable state every worker and the reporter share, guarded by one
/// lock in the unverified shell.
pub struct RunState {
    queue: WorkQueue,
    total: usize,
    completed: usize,
    in_flight: usize,
    bytes: u64,
    errors: Vec<ErrorRecord>,
}

impl RunState {
    pub closed spec fn spec_queue(&self) -> Seq<WorkItem> {
        self.queue@
    }

    pub closed spec fn spec_total(&self) -> int {
        self.total as int
    }

    pub closed spec fn spec_completed(&self) -> int {
        self.completed as int
    }

    pub closed spec fn spec_in_flight(&self) -> int {
        self.in_flight as int
    }

    pub closed spec fn spec_bytes(&self) -> int {
        self.bytes as int
    }

    pub closed spec fn spec_errors(&self) -> Seq<ErrorRecord> {
        self.errors@
    }

    /// Every enqueued item is exactly one of: still queued, held by a
    /// worker, or completed.
    pub open spec fn wf(&self) -> bool {
        &&& self.spec_completed() + self.spec_in_flight() + self.spec_queue().len()
            == self.spec_total()
        &&& unique_keys(self.spec_queue())
        &&& all_wf(self.spec_queue())
    }

    /// Begin a run over the filtered queue. Nothing is completed or in
    /// flight yet, no bytes are transferred, no errors are pending.
    pub fn start(queue: WorkQueue) -> (s: RunState)
        requires
            queue.wf(),
        ensures
            s.wf(),
            s.spec_queue() == queue@,
            s.spec_total() == queue@.len(),
            s.spec_completed() == 0,
            s.spec_in_flight() == 0,
            s.spec_bytes() == 0,
            s.spec_errors() == Seq::<ErrorRecord>::empty(),
    {
        let total = queue.len();
        let s = RunState {
            queue,
            total,
            completed: 0,
            in_flight: 0,
            bytes: 0,
            errors: Vec::new(),
        };
        proof {
            assert(s.spec_errors() =~= Seq::<ErrorRecord>::empty());
        }
        s
    }

    /// A worker asks for work: pops the next item (which is then in
    /// flight), or learns that the queue is exhausted.
    pub fn next_item(&mut self) -> (r: Option<WorkItem>)
        requires
            old(self).wf(),
        ensures
            final(self).wf(),
            old(self).spec_queue().len() == 0 ==> r is None && final(self).spec_queue() == old(
                self,
            ).spec_queue() && final(self).spec_in_flight() == old(self).spec_in_flight(),
            old(self).spec_queue().len() > 0 ==> r == Some(old(self).spec_queue()[0])
                && final(self).spec_queue() == old(self).spec_queue().skip(1)
                && final(self).spec_in_flight() == old(self).spec_in_flight() + 1,
            final(self).spec_total() == old(self).spec_total(),
            final(self).spec_completed() == old(self).spec_completed(),
            final(self).spec_bytes() == old(self).spec_bytes(),
            final(self).spec_errors() == old(self).spec_errors(),
            r is Some ==> r.unwrap().wf(),
    {
        let r = self.queue.pop();
        match &r {
            Some(_) => {
                proof {
                    lemma_skip_preserves_wf(old(self).spec_queue());
                }
                self.in_flight = self.in_flight + 1;
            },
            None => {
            },
        }
        r
    }

    /// A worker reports one terminal outcome, whichever it was: the item it
    /// held is completed. `completed` grows by exactly one per item.
    pub fn finish_item(&mut self)
        requires
            old(self).wf(),
            old(self).spec_in_flight() > 0,
        ensures
            final(self).wf(),
            final(self).spec_completed() == old(self).spec_completed() + 1,
            final(self).spec_in_flight() == old(self).spec_in_flight() - 1,
            final(self).spec_total() == old(self).spec_total(),
            final(self).spec_queue() == old(self).spec_queue(),
            final(self).spec_bytes() == old(self).spec_bytes(),
            final(self).spec_errors() == old(self).spec_errors(),
    {
        self.completed = self.completed + 1;
        self.in_flight = self.in_flight - 1;
    }

    /// Account received body bytes; the counter only grows, and sticks at
    /// its ceiling rather than wrapping.
    pub fn add_bytes(&mut self, n: u64)
        ensures
            final(self).spec_bytes() == if old(self).spec_bytes() + n <= u64::MAX {
                old(self).spec_bytes() + n
            } else {
                u64::MAX as int
            },
            final(self).spec_queue() == old(self).spec_queue(),
            final(self).spec_total() == old(self).spec_total(),
            final(self).spec_completed() == old(self).spec_completed(),
            final(self).spec_in_flight() == old(self).spec_in_flight(),
            final(self).spec_errors() == old(self).spec_errors(),
            old(self).wf() ==> final(self).wf(),
    {
        if n <= u64::MAX - self.bytes {
            self.bytes = self.bytes + n;
        } else {
            self.bytes = u64::MAX;
        }
    }

    /// A worker leaves one failure for the reporter; nothing else changes,
    /// no other worker is interrupted.
    pub fn push_error(&mut self, e: ErrorRecord)
        ensures
            final(self).spec_errors() == old(self).spec_errors().push(e),
            final(self).spec_queue() == old(self).spec_queue(),
            final(self).spec_total() == old(self).spec_total(),
            final(self).spec_completed() == old(self).spec_completed(),
            final(self).spec_in_flight() == old(self).spec_in_flight(),
            final(self).spec_bytes() == old(self).spec_bytes(),
            old(self).wf() ==> final(self).wf(),
    {
        self.errors.push(e);
    }

    /// The reporter drains everything accumulated since its last tick.
    pub fn drain_errors(&mut self) -> (r: Vec<ErrorRecord>)
        ensures
            r@ == old(self).spec_errors(),
            final(self).spec_errors() == Seq::<ErrorRecord>::empty(),
            final(self).spec_queue() == old(self).spec_queue(),
            final(self).spec_total() == old(self).spec_total(),
            final(self).spec_completed() == old(self).spec_completed(),
            final(self).spec_in_flight() == old(self).spec_in_flight(),
            final(self).spec_bytes() == old(self).spec_bytes(),
            old(self).wf() ==> final(self).wf(),
    {
        let mut r: Vec<ErrorRecord> = Vec::new();
        core::mem::swap(&mut self.errors, &mut r);
        proof {
            assert(self.errors@ =~= Seq::<ErrorRecord>::empty());
        }
        r
    }

    /// The run (and the reporter loop) ends exactly when every enqueued
    /// item has reached a terminal outcome.
    pub fn is_done(&self) -> (r: bool)
        ensures
            r == (self.spec_completed() == self.spec_total()),
    {
        self.completed == self.total
    }

    pub fn completed(&self) -> (r: usize)
        ensures
            r == self.spec_completed(),
    {
        self.completed
    }

    pub fn total(&self) -> (r: usize)
        ensures
            r == self.spec_total(),
    {
        self.total
    }

    pub fn in_flight(&self) -> (r: usize)
        ensures
            r == self.spec_in_flight(),
    {
        self.in_flight
    }

    pub fn bytes(&self) -> (r: u64)
        ensures
            r == self.spec_bytes(),
    {
        self.bytes
    }

    pub fn queue_len(&self) -> (r: usize)
        ensures
            r == self.spec_queue().len(),
    {
        self.queue.len()
    }
}

/// How many workers to start: the configured concurrency, but never more
/// than there are pending items.
pub fn pool_size(configured: usize, pending: usize) -> (r: usize)
    ensures
        r == if configured <= pending {
            configured as int
        } else {
            pending as int
        },
        r <= pending,
{
    if configured <= pending {
        configured
    } else {
        pending
    }
}

/// When the queue is exhausted and no worker still holds an item, every one
/// of the `total` enqueued items has reached a terminal outcome:
/// `completed` equals the enqueued total.
pub proof fn lemma_run_completion(s: RunState)
    requires
        s.wf(),
        s.spec_queue().len() == 0,
        s.spec_in_flight() == 0,
    ensures
        s.spec_completed() == s.spec_total(),
{
}

} // verus!
