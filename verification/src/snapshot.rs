use vstd::prelude::*;

use crate::strutil::clone_strings;

verus! {

/// One immutable, shareable view of the project for a single build: the
/// revision it was taken at and the source dependencies known at that time.
#[derive(Debug)]
pub struct BuildSnapshot {
    pub revision: u64,
    pub deps: Vec<String>,
}

/// The revisioned project state: a monotonically increasing revision
/// counter, the dependency set reported by the last full compilation, and
/// the oldest revision still retained after cache eviction. Each accepted
/// filesystem event advances the revision; superseded revisions become
/// eligible for eviction.
pub struct SnapshotStore {
    revision: u64,
    deps: Vec<String>,
    oldest_retained: u64,
}

impl SnapshotStore {
    pub closed spec fn revision(&self) -> u64 {
        self.revision
    }

    pub closed spec fn oldest_retained(&self) -> u64 {
        self.oldest_retained
    }

    pub closed spec fn deps(&self) -> Seq<String> {
        self.deps@
    }

    pub closed spec fn wf(&self) -> bool {
        self.oldest_retained <= self.revision
    }

    pub fn new() -> (r: SnapshotStore)
        ensures
            r.wf(),
            r.revision() == 0,
            r.oldest_retained() == 0,
            r.deps() == Seq::<String>::empty(),
    {
        SnapshotStore { revision: 0, deps: Vec::new(), oldest_retained: 0 }
    }

    /// Opens the next revision in reaction to changed source paths. Earlier
    /// snapshots are superseded; the dependency set stays until the next
    /// full compilation reports a new one.
    pub fn invalidate(&mut self, changed: &Vec<String>)
        requires
            old(self).wf(),
            old(self).revision() < u64::MAX,
        ensures
            final(self).wf(),
            final(self).revision() == old(self).revision() + 1,
            final(self).oldest_retained() == old(self).oldest_retained(),
            final(self).deps() == old(self).deps(),
    {
        self.revision = self.revision + 1;
    }

    /// A cheap shareable view of the current revision, for the workers of
    /// one build.
    pub fn snapshot(&self) -> (r: BuildSnapshot)
        ensures
            r.revision == self.revision(),
            r.deps@ == self.deps(),
    {
        BuildSnapshot { revision: self.revision, deps: clone_strings(&self.deps) }
    }

    /// Replaces the dependency set after a full compilation, so the file
    /// watcher can be retargeted.
    pub fn set_dependencies(&mut self, deps: Vec<String>)
        requires
            old(self).wf(),
        ensures
            final(self).wf(),
            final(self).deps() == deps@,
            final(self).revision() == old(self).revision(),
            final(self).oldest_retained() == old(self).oldest_retained(),
    {
        self.deps = deps;
    }

    pub fn dependencies(&self) -> (r: Vec<String>)
        ensures
            r@ == self.deps(),
    {
        clone_strings(&self.deps)
    }

    /// Evicts revisions older than `retain` revisions before the current
    /// one; the retention floor never moves backwards.
    pub fn evict(&mut self, retain: u64)
        requires
            old(self).wf(),
        ensures
            final(self).wf(),
            final(self).revision() == old(self).revision(),
            final(self).deps() == old(self).deps(),
            final(self).oldest_retained() == (if old(self).revision() >= retain && old(
                self,
            ).revision() - retain > old(self).oldest_retained() {
                (old(self).revision() - retain) as u64
            } else {
                old(self).oldest_retained()
            }),
    {
        if self.revision >= retain {
            let floor = self.revision - retain;
            if floor > self.oldest_retained {
                self.oldest_retained = floor;
            }
        }
    }

    /// Whether a revision is still retained: not yet evicted and not from
    /// the future.
    pub fn is_retained(&self, rev: u64) -> (r: bool)
        ensures
            r == (self.oldest_retained() <= rev <= self.revision()),
    {
        self.oldest_retained <= rev && rev <= self.revision
    }
}

} // verus!
