//! The incremental traversal engine: a worklist of directories still to be
//! visited, fed by observations from whoever performs the actual directory
//! probes and listings.
//!
//! Several workers may drive one scanner: any pending task may be taken next,
//! so the order in which outcomes appear is deliberately unspecified. The
//! engine decides what each observation means — match, scan error, or silent
//! expansion — and bounds expansion by the depth limit.

use vstd::prelude::*;
use crate::outcome::ScanOutcome;
use crate::tree::can_expand;

verus! {

/// One pending unit of work: a directory awaiting its visit. The payload
/// identifies the directory to the caller (a path, or a whole subtree in a
/// replayed snapshot); the engine itself reads only the depth.
pub struct Task<P> {
    pub payload: P,
    pub depth: usize,
}

/// What visiting one directory observed, reported back to the engine.
///
/// `Listed` and `ListFailed` may be reported only for a directory the engine
/// would expand; `NotExpanded` only for one it would not. The marker probe
/// comes first: a hit or a failed probe ends the visit without any listing.
pub enum DirEvent<P> {
    /// The marker file is present: the directory is a match.
    MarkerFound,
    /// The marker probe itself failed (for instance, permission denied).
    MarkerCheckFailed { cause: String },
    /// No marker; the children were listed and these are the subdirectories.
    Listed { subdirs: Vec<P> },
    /// No marker; listing the children failed.
    ListFailed { cause: String },
    /// No marker, and the depth limit forbids expansion.
    NotExpanded,
}

/// The sequence of tasks that enqueues one payload per subdirectory, all at
/// the same depth.
pub open spec fn spec_tasks<P>(subdirs: Seq<P>, depth: usize) -> Seq<Task<P>> {
    subdirs.map_values(|p: P| (Task { payload: p, depth }))
}

/// The traversal engine's entire state: the depth limit of the scan and the
/// worklist of directories not yet visited.
pub struct Scanner<P> {
    depth_limit: Option<usize>,
    tasks: Vec<Task<P>>,
}

impl<P> Scanner<P> {
    /// The worklist of pending tasks, in storage order. Which one is taken
    /// next is the caller's choice.
    pub closed spec fn pending(self) -> Seq<Task<P>> {
        self.tasks@
    }

    /// The depth limit this scan was started with; absent means unlimited.
    pub closed spec fn depth_limit(self) -> Option<usize> {
        self.depth_limit
    }

    /// A fresh scan: the root alone is pending, at depth zero.
    pub fn new(root: P, depth_limit: Option<usize>) -> (s: Self)
        ensures
            s.pending() =~= seq![(Task { payload: root, depth: 0usize })],
            s.depth_limit() == depth_limit,
    {
        let mut tasks: Vec<Task<P>> = Vec::new();
        tasks.push(Task { payload: root, depth: 0 });
        Scanner { depth_limit, tasks }
    }

    /// How many directories are still waiting to be visited.
    pub fn pending_count(&self) -> (n: usize)
        ensures
            n == self.pending().len(),
    {
        self.tasks.len()
    }

    /// Remove and return any pending task, chosen by index. Workers may pick
    /// in any order; the choice never changes the set of outcomes.
    pub fn take_task(&mut self, i: usize) -> (t: Task<P>)
        requires
            i < old(self).pending().len(),
        ensures
            t == old(self).pending()[i as int],
            final(self).pending() == old(self).pending().remove(i as int),
            final(self).depth_limit() == old(self).depth_limit(),
    {
        self.tasks.remove(i)
    }

    /// Whether a directory at the given depth is to have its children
    /// listed. Depth limiting bounds expansion only, never matching.
    pub fn expands(&self, depth: usize) -> (b: bool)
        ensures
            b == can_expand(self.depth_limit(), depth as nat),
    {
        match &self.depth_limit {
            Option::None => true,
            Option::Some(l) => depth < *l,
        }
    }

    /// Digest the observation for one visited directory: emit its outcome,
    /// if any, and enqueue its subdirectories one level deeper when it was
    /// expanded. Nothing else about the worklist changes, so no observation
    /// ever disturbs the pending visits of sibling branches.
    pub fn report(&mut self, path: String, depth: usize, event: DirEvent<P>) -> (out: Option<
        ScanOutcome,
    >)
        requires
            (event is Listed || event is ListFailed) ==> can_expand(
                old(self).depth_limit(),
                depth as nat,
            ),
            event is NotExpanded ==> !can_expand(old(self).depth_limit(), depth as nat),
            event is Listed ==> depth < usize::MAX,
        ensures
            final(self).depth_limit() == old(self).depth_limit(),
            match event {
                DirEvent::MarkerFound => final(self).pending() == old(self).pending() && (out
                    matches Some(o) && o@ == (crate::outcome::ScanOutcomeModel::Matched {
                    path: path@,
                })),
                DirEvent::MarkerCheckFailed { cause } => final(self).pending() == old(
                    self,
                ).pending() && (out matches Some(o) && o@
                    == (crate::outcome::ScanOutcomeModel::ScanError {
                    path: path@,
                    cause: cause@,
                })),
                DirEvent::Listed { subdirs } => final(self).pending() == old(self).pending()
                    + spec_tasks(subdirs@, (depth + 1) as usize) && out is None,
                DirEvent::ListFailed { cause } => final(self).pending() == old(self).pending() && (
                out matches Some(o) && o@ == (crate::outcome::ScanOutcomeModel::ScanError {
                    path: path@,
                    cause: cause@,
                })),
                DirEvent::NotExpanded => final(self).pending() == old(self).pending() && out
                    is None,
            },
    {
        match event {
            DirEvent::MarkerFound => Some(ScanOutcome::Matched { path }),
            DirEvent::MarkerCheckFailed { cause } => Some(ScanOutcome::ScanError { path, cause }),
            DirEvent::Listed { subdirs } => {
                let ghost orig = self.tasks@;
                let ghost subs0 = subdirs@;
                let next_depth = depth + 1;
                let mut rest = subdirs;
                let total = rest.len();
                let mut i: usize = 0;
                while rest.len() > 0
                    invariant
                        subs0.len() == total,
                        i + rest@.len() == subs0.len(),
                        rest@ == subs0.skip(i as int),
                        self.tasks@ == orig + spec_tasks(subs0, next_depth).take(i as int),
                        self.depth_limit == old(self).depth_limit(),
                    decreases rest@.len(),
                {
                    let sub = rest.remove(0);
                    self.tasks.push(Task { payload: sub, depth: next_depth });
                    proof {
                        assert(subs0.skip(i as int).remove(0) =~= subs0.skip(i + 1));
                        assert(spec_tasks(subs0, next_depth).take(i as int).push(
                            Task { payload: subs0[i as int], depth: next_depth },
                        ) =~= spec_tasks(subs0, next_depth).take(i + 1));
                    }
                    i = i + 1;
                }
                proof {
                    assert(spec_tasks(subs0, next_depth).take(subs0.len() as int) =~= spec_tasks(
                        subs0,
                        next_depth,
                    ));
                }
                None
            },
            DirEvent::ListFailed { cause } => Some(ScanOutcome::ScanError { path, cause }),
            DirEvent::NotExpanded => None,
        }
    }
}

} // verus!
