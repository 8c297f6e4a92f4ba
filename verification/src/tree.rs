//! A snapshot of a directory tree as the traversal engine observes it, and
//! the specification of what a depth-bounded scan of such a snapshot emits.
//!
//! Each node records the directory's path, whether the project marker could
//! be observed inside it, and whether its children could be listed. Files
//! other than the marker play no part in the scan and are not modelled.

use vstd::prelude::*;
use crate::outcome::ScanOutcomeModel;

verus! {

/// What probing a directory for the project marker observed: the marker is
/// there, it is not, or the probe itself failed (for instance, permission
/// denied), which is distinct from absence.
#[derive(Debug, PartialEq, Eq)]
pub enum MarkerStatus {
    Present,
    Absent,
    Denied { cause: String },
}

/// What listing a directory's children would observe: the child directories
/// themselves, or a failure to enumerate them.
#[derive(Debug, PartialEq, Eq)]
pub enum Listing {
    Listed { children: Vec<DirNode> },
    Denied { cause: String },
}

/// One directory in a tree snapshot.
#[derive(Debug, PartialEq, Eq)]
pub struct DirNode {
    pub path: String,
    pub marker: MarkerStatus,
    pub listing: Listing,
}

/// Whether a directory sitting at `depth` (root = depth 0) may have its
/// children listed under the given depth limit. The limit bounds expansion
/// only: a directory at the boundary depth is still tested for the marker.
pub open spec fn can_expand(limit: Option<usize>, depth: nat) -> bool {
    match limit {
        Option::None => true,
        Option::Some(l) => depth < l,
    }
}

/// Number of directories in a snapshot; each node counts once.
pub open spec fn node_size(t: DirNode) -> nat
    decreases t,
{
    match t.listing {
        Listing::Denied { .. } => 1,
        Listing::Listed { children } => 1 + children_size(children@),
    }
}

/// Total number of directories in a forest of snapshots.
pub open spec fn children_size(cs: Seq<DirNode>) -> nat
    decreases cs,
{
    if cs.len() == 0 {
        0
    } else {
        node_size(cs[0]) + children_size(cs.drop_first())
    }
}

/// Everything a scan rooted at `t`, with `t` at `depth`, emits, in canonical
/// depth-first order. A marker hit is emitted and the node is not descended
/// into; a failed marker probe or a failed listing is emitted as a scan error
/// and that branch is abandoned; a readable non-match is expanded when the
/// depth limit allows and is otherwise silent.
pub open spec fn spec_scan(t: DirNode, depth: nat, limit: Option<usize>) -> Seq<ScanOutcomeModel>
    decreases t,
{
    match t.marker {
        MarkerStatus::Denied { cause } => seq![
            (ScanOutcomeModel::ScanError { path: t.path@, cause: cause@ }),
        ],
        MarkerStatus::Present => seq![(ScanOutcomeModel::Matched { path: t.path@ })],
        MarkerStatus::Absent => {
            if can_expand(limit, depth) {
                match t.listing {
                    Listing::Denied { cause } => seq![
                        (ScanOutcomeModel::ScanError { path: t.path@, cause: cause@ }),
                    ],
                    Listing::Listed { children } => scan_children(children@, depth + 1, limit),
                }
            } else {
                Seq::empty()
            }
        },
    }
}

/// Everything the scans of a forest of sibling subtrees emit, in order.
pub open spec fn scan_children(cs: Seq<DirNode>, depth: nat, limit: Option<usize>) -> Seq<
    ScanOutcomeModel,
>
    decreases cs,
{
    if cs.len() == 0 {
        Seq::empty()
    } else {
        spec_scan(cs[0], depth, limit) + scan_children(cs.drop_first(), depth, limit)
    }
}

/// The set of paths a sequence of outcomes reports as matched.
pub open spec fn matched_paths(items: Seq<ScanOutcomeModel>) -> Set<Seq<char>> {
    Set::new(|p: Seq<char>| items.contains(ScanOutcomeModel::Matched { path: p }))
}

/// The set of directories that a scan of `t` at `depth` ought to match: the
/// observably marker-holding directories within the depth limit, excluding
/// any directory nested beneath another match or beneath an unreadable one.
pub open spec fn described_matches(t: DirNode, depth: nat, limit: Option<usize>) -> Set<Seq<char>>
    decreases t,
{
    match t.marker {
        MarkerStatus::Present => set![t.path@],
        MarkerStatus::Denied { .. } => Set::empty(),
        MarkerStatus::Absent => {
            if can_expand(limit, depth) {
                match t.listing {
                    Listing::Listed { children } => described_children(children@, depth + 1, limit),
                    Listing::Denied { .. } => Set::empty(),
                }
            } else {
                Set::empty()
            }
        },
    }
}

/// The union of the described match sets of a forest of sibling subtrees.
pub open spec fn described_children(cs: Seq<DirNode>, depth: nat, limit: Option<usize>) -> Set<
    Seq<char>,
>
    decreases cs,
{
    if cs.len() == 0 {
        Set::empty()
    } else {
        described_matches(cs[0], depth, limit).union(
            described_children(cs.drop_first(), depth, limit),
        )
    }
}

/// An element is in a concatenation exactly when it is in one of the parts.
proof fn lemma_concat_contains<A>(a: Seq<A>, b: Seq<A>, x: A)
    ensures
        (a + b).contains(x) <==> a.contains(x) || b.contains(x),
{
    if a.contains(x) {
        let i = choose|i: int| 0 <= i < a.len() && a[i] == x;
        assert((a + b)[i] == x);
    }
    if b.contains(x) {
        let i = choose|i: int| 0 <= i < b.len() && b[i] == x;
        assert((a + b)[i + a.len()] == x);
    }
    if (a + b).contains(x) {
        let i = choose|i: int| 0 <= i < (a + b).len() && (a + b)[i] == x;
        if i < a.len() {
            assert(a[i] == x);
        } else {
            assert(b[i - a.len()] == x);
        }
    }
}

/// The matched paths of a concatenation are the union of the matched paths
/// of its parts.
proof fn lemma_matched_paths_concat(a: Seq<ScanOutcomeModel>, b: Seq<ScanOutcomeModel>)
    ensures
        matched_paths(a + b) =~= matched_paths(a).union(matched_paths(b)),
{
    assert forall|p: Seq<char>|
        matched_paths(a + b).contains(p) <==> matched_paths(a).union(matched_paths(b)).contains(
            p,
        ) by {
        lemma_concat_contains(a, b, ScanOutcomeModel::Matched { path: p });
    }
}

/// The set of matched paths a scan emits is exactly the described match set:
/// every directory holding the marker within the depth limit, and no
/// directory nested beneath another match. Scan errors never add to or
/// remove from the matched set of the branches that remain readable.
pub proof fn lemma_scan_matches_described(t: DirNode, depth: nat, limit: Option<usize>)
    ensures
        matched_paths(spec_scan(t, depth, limit)) =~= described_matches(t, depth, limit),
    decreases t,
{
    match t.marker {
        MarkerStatus::Present => {
            let items = spec_scan(t, depth, limit);
            assert forall|p: Seq<char>|
                items.contains(ScanOutcomeModel::Matched { path: p }) <==> p == t.path@ by {
                if items.contains(ScanOutcomeModel::Matched { path: p }) {
                    let i = choose|i: int|
                        0 <= i < items.len() && items[i] == (ScanOutcomeModel::Matched {
                            path: p,
                        });
                    assert(i == 0);
                }
                if p == t.path@ {
                    assert(items[0] == (ScanOutcomeModel::Matched { path: p }));
                }
            }
        },
        MarkerStatus::Denied { .. } => {
            let items = spec_scan(t, depth, limit);
            assert forall|p: Seq<char>| !items.contains(
                ScanOutcomeModel::Matched { path: p },
            ) by {
                if items.contains(ScanOutcomeModel::Matched { path: p }) {
                    let i = choose|i: int|
                        0 <= i < items.len() && items[i] == (ScanOutcomeModel::Matched {
                            path: p,
                        });
                    assert(i == 0);
                }
            }
        },
        MarkerStatus::Absent => {
            if can_expand(limit, depth) {
                match t.listing {
                    Listing::Denied { .. } => {
                        let items = spec_scan(t, depth, limit);
                        assert forall|p: Seq<char>| !items.contains(
                            ScanOutcomeModel::Matched { path: p },
                        ) by {
                            if items.contains(ScanOutcomeModel::Matched { path: p }) {
                                let i = choose|i: int|
                                    0 <= i < items.len() && items[i]
                                        == (ScanOutcomeModel::Matched { path: p });
                                assert(i == 0);
                            }
                        }
                    },
                    Listing::Listed { children } => {
                        lemma_children_matches_described(children@, depth + 1, limit);
                    },
                }
            }
        },
    }
}

/// Forest form of [`lemma_scan_matches_described`].
pub proof fn lemma_children_matches_described(cs: Seq<DirNode>, depth: nat, limit: Option<usize>)
    ensures
        matched_paths(scan_children(cs, depth, limit)) =~= described_children(cs, depth, limit),
    decreases cs,
{
    if cs.len() > 0 {
        lemma_scan_matches_described(cs[0], depth, limit);
        lemma_children_matches_described(cs.drop_first(), depth, limit);
        lemma_matched_paths_concat(
            spec_scan(cs[0], depth, limit),
            scan_children(cs.drop_first(), depth, limit),
        );
    }
}

/// Outcome streams that are equal as multisets — any two schedules of the
/// same scan — report exactly the same matched set.
pub proof fn lemma_same_multiset_same_matches(a: Seq<ScanOutcomeModel>, b: Seq<ScanOutcomeModel>)
    requires
        a.to_multiset() == b.to_multiset(),
    ensures
        matched_paths(a) =~= matched_paths(b),
{
    broadcast use vstd::seq_lib::group_to_multiset_ensures;

    assert forall|p: Seq<char>|
        matched_paths(a).contains(p) <==> matched_paths(b).contains(p) by {
        let m = ScanOutcomeModel::Matched { path: p };
        assert(a.contains(m) <==> a.to_multiset().count(m) > 0);
        assert(b.contains(m) <==> b.to_multiset().count(m) > 0);
    }
}

/// A directory whose marker probe succeeds without a hit but whose children
/// cannot be listed contributes exactly one outcome to the scan: a single
/// scan error naming that directory. The branch is abandoned with no further
/// outcome from it.
pub proof fn lemma_list_failure_single_error(t: DirNode, depth: nat, limit: Option<usize>)
    requires
        t.marker is Absent,
        can_expand(limit, depth),
        t.listing is Denied,
    ensures
        spec_scan(t, depth, limit) =~= seq![
            (ScanOutcomeModel::ScanError { path: t.path@, cause: t.listing->Denied_cause@ }),
        ],
{
}

/// A failure anywhere in one subtree never suppresses outcomes elsewhere:
/// every outcome of every child subtree — sibling errors included — appears
/// in the parent's scan.
pub proof fn lemma_child_outcomes_preserved(
    t: DirNode,
    depth: nat,
    limit: Option<usize>,
    i: int,
    x: ScanOutcomeModel,
)
    requires
        t.marker is Absent,
        can_expand(limit, depth),
        t.listing is Listed,
        0 <= i < t.listing->Listed_children@.len(),
        spec_scan(t.listing->Listed_children@[i], depth + 1, limit).contains(x),
    ensures
        spec_scan(t, depth, limit).contains(x),
{
    lemma_forest_outcomes_preserved(t.listing->Listed_children@, depth + 1, limit, i, x);
}

/// Forest form of [`lemma_child_outcomes_preserved`].
pub proof fn lemma_forest_outcomes_preserved(
    cs: Seq<DirNode>,
    depth: nat,
    limit: Option<usize>,
    i: int,
    x: ScanOutcomeModel,
)
    requires
        0 <= i < cs.len(),
        spec_scan(cs[i], depth, limit).contains(x),
    ensures
        scan_children(cs, depth, limit).contains(x),
    decreases i,
{
    if i == 0 {
        lemma_concat_contains(
            spec_scan(cs[0], depth, limit),
            scan_children(cs.drop_first(), depth, limit),
            x,
        );
    } else {
        lemma_forest_outcomes_preserved(cs.drop_first(), depth, limit, i - 1, x);
        lemma_concat_contains(
            spec_scan(cs[0], depth, limit),
            scan_children(cs.drop_first(), depth, limit),
            x,
        );
    }
}

/// `a` is at most as permissive a depth limit as `b`.
pub open spec fn limit_le(a: Option<usize>, b: Option<usize>) -> bool {
    match b {
        Option::None => true,
        Option::Some(lb) => match a {
            Option::None => false,
            Option::Some(la) => la <= lb,
        },
    }
}

/// Raising the depth limit only ever adds matches: the described match set
/// under a tighter limit is a subset of the set under a looser one.
pub proof fn lemma_matches_monotone_in_limit(
    t: DirNode,
    depth: nat,
    tight: Option<usize>,
    loose: Option<usize>,
)
    requires
        limit_le(tight, loose),
    ensures
        described_matches(t, depth, tight).subset_of(described_matches(t, depth, loose)),
    decreases t,
{
    match t.marker {
        MarkerStatus::Absent => {
            if can_expand(tight, depth) {
                match t.listing {
                    Listing::Listed { children } => {
                        lemma_children_monotone_in_limit(children@, depth + 1, tight, loose);
                    },
                    Listing::Denied { .. } => {},
                }
            }
        },
        _ => {},
    }
}

/// The same monotonicity, stated on the scan itself: everything matched
/// under a tighter depth limit is still matched under a looser one.
pub proof fn lemma_scan_matches_monotone(
    t: DirNode,
    depth: nat,
    tight: Option<usize>,
    loose: Option<usize>,
)
    requires
        limit_le(tight, loose),
    ensures
        matched_paths(spec_scan(t, depth, tight)).subset_of(
            matched_paths(spec_scan(t, depth, loose)),
        ),
{
    lemma_scan_matches_described(t, depth, tight);
    lemma_scan_matches_described(t, depth, loose);
    lemma_matches_monotone_in_limit(t, depth, tight, loose);
}

/// Forest form of [`lemma_matches_monotone_in_limit`].
pub proof fn lemma_children_monotone_in_limit(
    cs: Seq<DirNode>,
    depth: nat,
    tight: Option<usize>,
    loose: Option<usize>,
)
    requires
        limit_le(tight, loose),
    ensures
        described_children(cs, depth, tight).subset_of(described_children(cs, depth, loose)),
    decreases cs,
{
    if cs.len() > 0 {
        lemma_matches_monotone_in_limit(cs[0], depth, tight, loose);
        lemma_children_monotone_in_limit(cs.drop_first(), depth, tight, loose);
    }
}

} // verus!

