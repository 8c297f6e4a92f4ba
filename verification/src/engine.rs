//! Running a whole scan over a tree snapshot by driving the incremental
//! engine, in an arbitrary order of worker pick-ups.
//!
//! The central result: whatever order the pending directories are taken in —
//! and so however many workers share the worklist — the multiset of emitted
//! outcomes is always the canonical scan of the snapshot. Scheduling can only
//! rearrange outcomes, never add, drop or change one.

use vstd::prelude::*;
use vstd::seq_lib::group_to_multiset_ensures;
use vstd::seq_lib::lemma_multiset_commutative;
use vstd::multiset::group_multiset_axioms;
use vstd::multiset::Multiset;
use vstd::multiset::lemma_multiset_empty_len;
use crate::outcome::{outcome_models, ScanOutcome, ScanOutcomeModel};
use crate::scanner::{spec_tasks, DirEvent, Scanner, Task};
use crate::tree::{
    can_expand, children_size, node_size, scan_children, spec_scan, DirNode, Listing, MarkerStatus,
};

verus! {

/// Total number of directories in the subtrees still pending.
pub open spec fn pending_size(s: Seq<Task<DirNode>>) -> nat
    decreases s,
{
    if s.len() == 0 {
        0
    } else {
        node_size(s[0].payload) + pending_size(s.drop_first())
    }
}

/// Everything the scans of the pending subtrees will still emit, as a
/// multiset: what remains of the canonical scan.
pub open spec fn pending_items(s: Seq<Task<DirNode>>, limit: Option<usize>) -> Multiset<
    ScanOutcomeModel,
>
    decreases s,
{
    if s.len() == 0 {
        Multiset::empty()
    } else {
        spec_scan(s[0].payload, s[0].depth as nat, limit).to_multiset().add(
            pending_items(s.drop_first(), limit),
        )
    }
}

/// Every snapshot node counts itself.
proof fn lemma_node_size_pos(t: DirNode)
    ensures
        node_size(t) >= 1,
{
}

/// A child's size is bounded by the whole forest's size.
proof fn lemma_children_size_elem(cs: Seq<DirNode>, i: int)
    requires
        0 <= i < cs.len(),
    ensures
        node_size(cs[i]) <= children_size(cs),
    decreases i,
{
    if i > 0 {
        lemma_children_size_elem(cs.drop_first(), i - 1);
    }
}

/// Removing a task splits the pending size accordingly.
proof fn lemma_pending_size_remove(s: Seq<Task<DirNode>>, i: int)
    requires
        0 <= i < s.len(),
    ensures
        pending_size(s) == pending_size(s.remove(i)) + node_size(s[i].payload),
    decreases i,
{
    if i == 0 {
        assert(s.remove(0) =~= s.drop_first());
    } else {
        lemma_pending_size_remove(s.drop_first(), i - 1);
        assert(s.remove(i).drop_first() =~= s.drop_first().remove(i - 1));
        assert(s.remove(i)[0] == s[0]);
    }
}

/// Removing a task splits the remaining outcomes accordingly.
proof fn lemma_pending_items_remove(s: Seq<Task<DirNode>>, i: int, limit: Option<usize>)
    requires
        0 <= i < s.len(),
    ensures
        pending_items(s, limit) == pending_items(s.remove(i), limit).add(
            spec_scan(s[i].payload, s[i].depth as nat, limit).to_multiset(),
        ),
    decreases i,
{
    broadcast use group_multiset_axioms;

    if i == 0 {
        assert(s.remove(0) =~= s.drop_first());
        assert(pending_items(s, limit) =~= pending_items(s.remove(0), limit).add(
            spec_scan(s[0].payload, s[0].depth as nat, limit).to_multiset(),
        ));
    } else {
        lemma_pending_items_remove(s.drop_first(), i - 1, limit);
        assert(s.remove(i).drop_first() =~= s.drop_first().remove(i - 1));
        assert(s.remove(i)[0] == s[0]);
        assert(pending_items(s, limit) =~= pending_items(s.remove(i), limit).add(
            spec_scan(s[i].payload, s[i].depth as nat, limit).to_multiset(),
        ));
    }
}

/// Pending size over a concatenation of worklists.
proof fn lemma_pending_size_concat(a: Seq<Task<DirNode>>, b: Seq<Task<DirNode>>)
    ensures
        pending_size(a + b) == pending_size(a) + pending_size(b),
    decreases a.len(),
{
    if a.len() == 0 {
        assert(a + b =~= b);
    } else {
        lemma_pending_size_concat(a.drop_first(), b);
        assert((a + b).drop_first() =~= a.drop_first() + b);
        assert((a + b)[0] == a[0]);
    }
}

/// Remaining outcomes over a concatenation of worklists.
proof fn lemma_pending_items_concat(
    a: Seq<Task<DirNode>>,
    b: Seq<Task<DirNode>>,
    limit: Option<usize>,
)
    ensures
        pending_items(a + b, limit) == pending_items(a, limit).add(pending_items(b, limit)),
    decreases a.len(),
{
    broadcast use group_multiset_axioms;

    if a.len() == 0 {
        assert(a + b =~= b);
        assert(pending_items(a + b, limit) =~= pending_items(a, limit).add(
            pending_items(b, limit),
        ));
    } else {
        lemma_pending_items_concat(a.drop_first(), b, limit);
        assert((a + b).drop_first() =~= a.drop_first() + b);
        assert((a + b)[0] == a[0]);
        assert(pending_items(a + b, limit) =~= pending_items(a, limit).add(
            pending_items(b, limit),
        ));
    }
}

/// Enqueueing one task per subdirectory pends exactly the subtrees' size.
proof fn lemma_spec_tasks_size(cs: Seq<DirNode>, d: usize)
    ensures
        pending_size(spec_tasks(cs, d)) == children_size(cs),
    decreases cs.len(),
{
    if cs.len() > 0 {
        lemma_spec_tasks_size(cs.drop_first(), d);
        assert(spec_tasks(cs, d).drop_first() =~= spec_tasks(cs.drop_first(), d));
    }
}

/// Enqueueing one task per subdirectory pends exactly the outcomes of the
/// children's scans.
proof fn lemma_spec_tasks_items(cs: Seq<DirNode>, d: usize, limit: Option<usize>)
    ensures
        pending_items(spec_tasks(cs, d), limit) == scan_children(
            cs,
            d as nat,
            limit,
        ).to_multiset(),
    decreases cs.len(),
{
    broadcast use group_multiset_axioms, group_to_multiset_ensures, lemma_multiset_empty_len;

    if cs.len() == 0 {
        assert(scan_children(cs, d as nat, limit).to_multiset().len() == 0);
        assert(pending_items(spec_tasks(cs, d), limit) =~= scan_children(
            cs,
            d as nat,
            limit,
        ).to_multiset());
    } else {
        lemma_spec_tasks_items(cs.drop_first(), d, limit);
        assert(spec_tasks(cs, d).drop_first() =~= spec_tasks(cs.drop_first(), d));
        lemma_multiset_commutative(
            spec_scan(cs[0], d as nat, limit),
            scan_children(cs.drop_first(), d as nat, limit),
        );
        assert(pending_items(spec_tasks(cs, d), limit) =~= scan_children(
            cs,
            d as nat,
            limit,
        ).to_multiset());
    }
}

/// The multiset of a one-outcome scan.
proof fn lemma_singleton_to_multiset(m: ScanOutcomeModel)
    ensures
        seq![m].to_multiset() == Multiset::empty().insert(m),
{
    broadcast use group_multiset_axioms, group_to_multiset_ensures, lemma_multiset_empty_len;

    assert(seq![m] =~= Seq::empty().push(m));
    assert(Seq::<ScanOutcomeModel>::empty().to_multiset().len() == 0);
    assert(seq![m].to_multiset() =~= Multiset::empty().insert(m));
}

/// Appending one emitted outcome to the output.
proof fn lemma_outcome_models_push(s: Seq<ScanOutcome>, o: ScanOutcome)
    ensures
        outcome_models(s.push(o)) == outcome_models(s).push(o@),
{
    assert(outcome_models(s.push(o)) =~= outcome_models(s).push(o@));
}

/// Whatever outcomes a run of [`scan_snapshot`] produced — in whatever
/// order its schedule delivered them — their matched paths are exactly the
/// described match set of the snapshot: every directory holding the marker
/// within the depth limit, and no directory nested beneath another match.
pub proof fn lemma_snapshot_matches_described(
    items: Seq<ScanOutcomeModel>,
    t: DirNode,
    limit: Option<usize>,
)
    requires
        items.to_multiset() == spec_scan(t, 0, limit).to_multiset(),
    ensures
        crate::tree::matched_paths(items) =~= crate::tree::described_matches(t, 0, limit),
{
    crate::tree::lemma_same_multiset_same_matches(items, spec_scan(t, 0, limit));
    crate::tree::lemma_scan_matches_described(t, 0, limit);
}

/// Scan a whole snapshot by driving the engine until no directory is
/// pending, picking each next directory by the caller-supplied `order` (as a
/// model of worker scheduling; indices are taken modulo the worklist length,
/// and an empty `order` always picks the front).
///
/// Whatever the order — so, in particular, whatever the worker-pool size that
/// produced it — the outcomes are, as a multiset, exactly the canonical scan
/// of the snapshot: scheduling changes only the arrival order of outcomes,
/// never the set of matches and errors.
pub fn scan_snapshot(t: DirNode, limit: Option<usize>, order: &Vec<usize>) -> (out: Vec<
    ScanOutcome,
>)
    requires
        node_size(t) <= usize::MAX,
    ensures
        outcome_models(out@).to_multiset() == spec_scan(t, 0, limit).to_multiset(),
        crate::tree::matched_paths(outcome_models(out@)) == crate::tree::described_matches(
            t,
            0,
            limit,
        ),
{
    let ghost t0 = t;
    let mut sc = Scanner::<DirNode>::new(t, limit);
    let mut out: Vec<ScanOutcome> = Vec::new();
    let mut k: usize = 0;
    proof {
        broadcast use group_multiset_axioms, group_to_multiset_ensures;

        assert(sc.pending().drop_first() =~= Seq::<Task<DirNode>>::empty());
        assert(sc.pending()[0] == (Task { payload: t0, depth: 0usize }));
        assert(pending_items(Seq::<Task<DirNode>>::empty(), limit) == Multiset::<
            ScanOutcomeModel,
        >::empty());
        assert(pending_items(sc.pending(), limit) =~= spec_scan(t0, 0, limit).to_multiset());
        assert(outcome_models(out@) =~= Seq::<ScanOutcomeModel>::empty());
        assert(outcome_models(out@).to_multiset().len() == 0);
        lemma_multiset_empty_len(outcome_models(out@).to_multiset());
        assert(outcome_models(out@).to_multiset().add(pending_items(sc.pending(), limit))
            =~= spec_scan(t0, 0, limit).to_multiset());
    }
    while sc.pending_count() != 0
        invariant
            sc.depth_limit() == limit,
            node_size(t0) <= usize::MAX,
            outcome_models(out@).to_multiset().add(pending_items(sc.pending(), limit)) == spec_scan(
                t0,
                0,
                limit,
            ).to_multiset(),
            forall|j: int|
                0 <= j < sc.pending().len() ==> #[trigger] sc.pending()[j].depth + node_size(
                    sc.pending()[j].payload,
                ) <= node_size(t0),
        decreases pending_size(sc.pending()),
    {
        let n = sc.pending_count();
        let idx: usize = if order.len() == 0 {
            0
        } else {
            order[k % order.len()] % n
        };
        if k == usize::MAX {
            k = 0;
        } else {
            k = k + 1;
        }
        let ghost pre = sc.pending();
        let task = sc.take_task(idx);
        let ghost gnode = task.payload;
        let ghost gdepth = task.depth;
        proof {
            broadcast use group_multiset_axioms;

            lemma_pending_items_remove(pre, idx as int, limit);
            lemma_pending_size_remove(pre, idx as int);
            lemma_node_size_pos(gnode);
        }
        let Task { payload: node, depth } = task;
        let DirNode { path, marker, listing } = node;
        let ghost gpath = path@;
        match marker {
            MarkerStatus::Present => {
                let ghost out_pre = out@;
                let o = sc.report(path, depth, DirEvent::MarkerFound);
                let oc = o.unwrap();
                let ghost goc = oc;
                out.push(oc);
                proof {
                    broadcast use group_multiset_axioms, group_to_multiset_ensures;

                    assert(spec_scan(gnode, gdepth as nat, limit) == seq![
                        (ScanOutcomeModel::Matched { path: gpath }),
                    ]);
                    lemma_singleton_to_multiset(ScanOutcomeModel::Matched { path: gpath });
                    lemma_outcome_models_push(out_pre, goc);
                    assert(outcome_models(out@).to_multiset().add(
                        pending_items(sc.pending(), limit),
                    ) =~= spec_scan(t0, 0, limit).to_multiset());
                }
            },
            MarkerStatus::Denied { cause } => {
                let ghost out_pre = out@;
                let ghost gcause = cause@;
                let o = sc.report(path, depth, DirEvent::MarkerCheckFailed { cause });
                let oc = o.unwrap();
                let ghost goc = oc;
                out.push(oc);
                proof {
                    broadcast use group_multiset_axioms, group_to_multiset_ensures;

                    assert(spec_scan(gnode, gdepth as nat, limit) == seq![
                        (ScanOutcomeModel::ScanError { path: gpath, cause: gcause }),
                    ]);
                    lemma_singleton_to_multiset(
                        ScanOutcomeModel::ScanError { path: gpath, cause: gcause },
                    );
                    lemma_outcome_models_push(out_pre, goc);
                    assert(outcome_models(out@).to_multiset().add(
                        pending_items(sc.pending(), limit),
                    ) =~= spec_scan(t0, 0, limit).to_multiset());
                }
            },
            MarkerStatus::Absent => {
                if sc.expands(depth) {
                    match listing {
                        Listing::Listed { children } => {
                            let ghost gchildren = children@;
                            let _o = sc.report(path, depth, DirEvent::Listed { subdirs: children });
                            proof {
                                broadcast use group_multiset_axioms;

                                let next = (gdepth + 1) as usize;
                                assert(spec_scan(gnode, gdepth as nat, limit) == scan_children(
                                    gchildren,
                                    gdepth as nat + 1,
                                    limit,
                                ));
                                lemma_pending_items_concat(
                                    pre.remove(idx as int),
                                    spec_tasks(gchildren, next),
                                    limit,
                                );
                                lemma_pending_size_concat(
                                    pre.remove(idx as int),
                                    spec_tasks(gchildren, next),
                                );
                                lemma_spec_tasks_items(gchildren, next, limit);
                                lemma_spec_tasks_size(gchildren, next);
                                assert(outcome_models(out@).to_multiset().add(
                                    pending_items(sc.pending(), limit),
                                ) =~= spec_scan(t0, 0, limit).to_multiset());
                                assert forall|j: int| 0 <= j < sc.pending().len() implies #[trigger] sc.pending()[j].depth
                                    + node_size(sc.pending()[j].payload) <= node_size(t0) by {
                                    if j < pre.remove(idx as int).len() {
                                        assert(sc.pending()[j] == pre.remove(idx as int)[j]);
                                    } else {
                                        let c = j - pre.remove(idx as int).len();
                                        assert(sc.pending()[j] == spec_tasks(gchildren, next)[c]);
                                        assert(sc.pending()[j].payload == gchildren[c]);
                                        lemma_children_size_elem(gchildren, c);
                                    }
                                }
                            }
                        },
                        Listing::Denied { cause } => {
                            let ghost out_pre = out@;
                            let ghost gcause = cause@;
                            let o = sc.report(path, depth, DirEvent::ListFailed { cause });
                            let oc = o.unwrap();
                            let ghost goc = oc;
                            out.push(oc);
                            proof {
                                broadcast use group_multiset_axioms, group_to_multiset_ensures;

                                assert(spec_scan(gnode, gdepth as nat, limit) == seq![
                                    (ScanOutcomeModel::ScanError { path: gpath, cause: gcause }),
                                ]);
                                lemma_singleton_to_multiset(
                                    ScanOutcomeModel::ScanError { path: gpath, cause: gcause },
                                );
                                lemma_outcome_models_push(out_pre, goc);
                                assert(outcome_models(out@).to_multiset().add(
                                    pending_items(sc.pending(), limit),
                                ) =~= spec_scan(t0, 0, limit).to_multiset());
                            }
                        },
                    }
                } else {
                    let _o = sc.report(path, depth, DirEvent::NotExpanded);
                    proof {
                        broadcast use group_multiset_axioms, group_to_multiset_ensures;

                        assert(spec_scan(gnode, gdepth as nat, limit) == Seq::<
                            ScanOutcomeModel,
                        >::empty());
                        assert(spec_scan(gnode, gdepth as nat, limit).to_multiset().len() == 0);
                        lemma_multiset_empty_len(
                            spec_scan(gnode, gdepth as nat, limit).to_multiset(),
                        );
                        assert(outcome_models(out@).to_multiset().add(
                            pending_items(sc.pending(), limit),
                        ) =~= spec_scan(t0, 0, limit).to_multiset());
                    }
                }
            },
        }
    }
    proof {
        broadcast use group_multiset_axioms;

        lemma_multiset_empty_len(pending_items(sc.pending(), limit));
        assert(outcome_models(out@).to_multiset() =~= spec_scan(t0, 0, limit).to_multiset());
        lemma_snapshot_matches_described(outcome_models(out@), t0, limit);
    }
    out
}

} // verus!
