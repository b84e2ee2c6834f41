//! Planning and progress tracking of a directory indexing run.
//!
//! Enumeration fixes the work list before any extraction begins, so the
//! total is known immediately and never changes mid-run.  The list is then
//! partitioned into consecutive chunks of bounded size, one worker per
//! chunk, which bounds the worker count instead of spawning one thread per
//! file.  Workers report completions into a `ProgressStream`, which the
//! interactive surface polls.

use vstd::prelude::*;

verus! {

pub const FILES_PER_CHUNK: usize = 20;

/// Partitions `n` work items into consecutive chunks of at most
/// [`FILES_PER_CHUNK`] items: chunk `k` covers the half-open range from
/// `20 * k` up to `20 * k + 20`, clamped to `n`.  No items means no chunks,
/// so no workers are spawned for an empty directory.
pub fn plan_chunks(n: usize) -> (r: Vec<(usize, usize)>)
    ensures
        n == 0 ==> r@.len() == 0,
        n > 0 ==> 20 * r@.len() >= n && n + 20 > 20 * r@.len(),
        forall|k: int|
            0 <= k < r@.len() ==> (#[trigger] r@[k]).0 == 20 * k && r@[k].1 == (if 20 * k + 20
                <= n {
                20 * k + 20
            } else {
                n as int
            }),
{
    let mut r: Vec<(usize, usize)> = Vec::new();
    let mut start: usize = 0;
    while start < n
        invariant
            start <= n,
            start == 20 * r@.len() || (start == n && n + 20 > 20 * r@.len() && 20 * r@.len() >= n),
            forall|k: int|
                0 <= k < r@.len() ==> (#[trigger] r@[k]).0 == 20 * k && r@[k].1 == (if 20 * k + 20
                    <= n {
                    20 * k + 20
                } else {
                    n as int
                }),
        decreases n - start,
    {
        let end = if n - start >= 20 {
            start + 20
        } else {
            n
        };
        r.push((start, end));
        start = end;
    }
    r
}

/// The progress of one indexing run: how many of the enumerated documents
/// have been processed.  The total is fixed when the run is planned.
pub struct ProgressStream {
    completed: usize,
    total: usize,
}

impl ProgressStream {
    /// Completions never outrun the fixed total.
    pub closed spec fn wf(&self) -> bool {
        self.completed <= self.total
    }

    pub closed spec fn spec_completed(&self) -> int {
        self.completed as int
    }

    pub closed spec fn spec_total(&self) -> int {
        self.total as int
    }

    /// A fresh run over `total` enumerated documents.  A run over zero
    /// documents is complete from the start.
    pub fn new(total: usize) -> (r: ProgressStream)
        ensures
            r.wf(),
            r.spec_completed() == 0,
            r.spec_total() == total,
    {
        ProgressStream { completed: 0, total }
    }

    /// Records that one document has been processed; the total never
    /// moves.
    pub fn record_completion(&mut self)
        requires
            old(self).wf(),
        ensures
            final(self).wf(),
            final(self).spec_total() == old(self).spec_total(),
            final(self).spec_completed() == if old(self).spec_completed() < old(
                self,
            ).spec_total() {
                old(self).spec_completed() + 1
            } else {
                old(self).spec_completed()
            },
    {
        if self.completed < self.total {
            self.completed = self.completed + 1;
        }
    }

    /// The `(completed, total)` pair the interactive surface polls.
    pub fn snapshot(&self) -> (r: (usize, usize))
        ensures
            r.0 == self.spec_completed(),
            r.1 == self.spec_total(),
    {
        (self.completed, self.total)
    }

    /// Whether every enumerated document has been processed.
    pub fn is_complete(&self) -> (r: bool)
        ensures
            r == (self.spec_completed() == self.spec_total()),
    {
        self.completed == self.total
    }
}

} // verus!
