use cargo_sweep::engine::scan_snapshot;
use cargo_sweep::outcome::ScanOutcome;
use cargo_sweep::tree::{DirNode, Listing, MarkerStatus};

fn project(path: &str) -> DirNode {
    DirNode {
        path: String::from(path),
        marker: MarkerStatus::Present,
        listing: Listing::Listed { children: Vec::new() },
    }
}

fn plain(path: &str, children: Vec<DirNode>) -> DirNode {
    DirNode {
        path: String::from(path),
        marker: MarkerStatus::Absent,
        listing: Listing::Listed { children },
    }
}

fn marker_denied(path: &str, cause: &str) -> DirNode {
    DirNode {
        path: String::from(path),
        marker: MarkerStatus::Denied { cause: String::from(cause) },
        listing: Listing::Listed { children: Vec::new() },
    }
}

fn unlistable(path: &str, cause: &str) -> DirNode {
    DirNode {
        path: String::from(path),
        marker: MarkerStatus::Absent,
        listing: Listing::Denied { cause: String::from(cause) },
    }
}

fn sample_tree() -> DirNode {
    plain(
        "/root",
        vec![
            project("/root/A"),
            plain("/root/B", vec![project("/root/B/C")]),
            plain("/root/D", vec![plain("/root/D/E", vec![project("/root/D/E/F")])]),
        ],
    )
}

fn sorted_matches(outcomes: &[ScanOutcome]) -> Vec<String> {
    let mut ms: Vec<String> = outcomes
        .iter()
        .filter_map(|o| match o {
            ScanOutcome::Matched { path } => Some(path.clone()),
            ScanOutcome::ScanError { .. } => None,
        })
        .collect();
    ms.sort();
    ms
}

fn sorted_errors(outcomes: &[ScanOutcome]) -> Vec<(String, String)> {
    let mut es: Vec<(String, String)> = outcomes
        .iter()
        .filter_map(|o| match o {
            ScanOutcome::Matched { .. } => None,
            ScanOutcome::ScanError { path, cause } => Some((path.clone(), cause.clone())),
        })
        .collect();
    es.sort();
    es
}

// Tree /root/A (marker), /root/B/C (marker), /root/D (empty), no depth
// limit: matches are exactly /root/A and /root/B/C, and /root/D yields no
// outcome at all, neither match nor error.
#[test]
fn unlimited_depth_finds_all_topmost_projects() {
    let tree = plain(
        "/root",
        vec![
            project("/root/A"),
            plain("/root/B", vec![project("/root/B/C")]),
            plain("/root/D", vec![]),
        ],
    );
    let out = scan_snapshot(tree, None, &Vec::new());
    assert_eq!(
        sorted_matches(&out),
        vec![String::from("/root/A"), String::from("/root/B/C")]
    );
    assert_eq!(sorted_errors(&out), Vec::new());
    assert_eq!(out.len(), 2);
    assert!(!out.iter().any(|o| match o {
        ScanOutcome::Matched { path } => path == "/root/D",
        ScanOutcome::ScanError { path, .. } => path == "/root/D",
    }));
}

// Same tree with depth limit 1: /root/B sits at the boundary depth, so it is
// still tested (and fails the predicate) but is not expanded, and /root/B/C
// is never reached. Only /root/A matches.
#[test]
fn depth_limit_bounds_expansion_not_matching() {
    let tree = plain(
        "/root",
        vec![
            project("/root/A"),
            plain("/root/B", vec![project("/root/B/C")]),
            plain("/root/D", vec![]),
        ],
    );
    let out = scan_snapshot(tree, Some(1), &Vec::new());
    assert_eq!(sorted_matches(&out), vec![String::from("/root/A")]);
    assert_eq!(out.len(), 1);
}

// A directory at the boundary depth that holds the marker is still matched:
// depth limiting bounds expansion, never matching.
#[test]
fn marker_at_boundary_depth_still_matches() {
    let tree = plain("/root", vec![project("/root/A")]);
    let out = scan_snapshot(tree, Some(1), &Vec::new());
    assert_eq!(sorted_matches(&out), vec![String::from("/root/A")]);
}

// Depth limit 0: the root itself is tested but nothing is expanded.
#[test]
fn depth_limit_zero_tests_only_the_root() {
    let out = scan_snapshot(sample_tree(), Some(0), &Vec::new());
    assert_eq!(out.len(), 0);
    let out2 = scan_snapshot(project("/root"), Some(0), &Vec::new());
    assert_eq!(sorted_matches(&out2), vec![String::from("/root")]);
}

// A match is not descended into: a project nested beneath another project is
// never reported.
#[test]
fn no_nested_matches_beneath_a_match() {
    let tree = plain(
        "/root",
        vec![DirNode {
            path: String::from("/root/outer"),
            marker: MarkerStatus::Present,
            listing: Listing::Listed { children: vec![project("/root/outer/inner")] },
        }],
    );
    let out = scan_snapshot(tree, None, &Vec::new());
    assert_eq!(sorted_matches(&out), vec![String::from("/root/outer")]);
    assert_eq!(out.len(), 1);
}

// Raising the depth limit only ever adds matches.
#[test]
fn match_set_is_monotone_in_the_depth_limit() {
    let limits = [Some(0), Some(1), Some(2), Some(3), None];
    let mut previous: Vec<String> = Vec::new();
    for limit in limits {
        let out = scan_snapshot(sample_tree(), limit, &Vec::new());
        let current = sorted_matches(&out);
        assert!(previous.iter().all(|m| current.contains(m)));
        previous = current;
    }
}

// A directory that cannot be listed yields exactly one scan error naming it,
// and sibling branches still yield their matches.
#[test]
fn listing_failure_is_one_error_and_spares_siblings() {
    let tree = plain(
        "/root",
        vec![
            unlistable("/root/locked", "permission denied"),
            project("/root/A"),
            plain("/root/B", vec![project("/root/B/C")]),
        ],
    );
    let out = scan_snapshot(tree, None, &Vec::new());
    assert_eq!(
        sorted_errors(&out),
        vec![(String::from("/root/locked"), String::from("permission denied"))]
    );
    assert_eq!(
        sorted_matches(&out),
        vec![String::from("/root/A"), String::from("/root/B/C")]
    );
}

// Marker present but unreadable on /root/E: the outcome set includes a
// permission-denied scan error for /root/E and unrelated subtrees still
// yield their matches.
#[test]
fn marker_probe_failure_is_reported_and_spares_other_subtrees() {
    let tree = plain(
        "/root",
        vec![
            marker_denied("/root/E", "permission denied"),
            plain("/root/B", vec![project("/root/B/C")]),
        ],
    );
    let out = scan_snapshot(tree, None, &Vec::new());
    assert_eq!(
        sorted_errors(&out),
        vec![(String::from("/root/E"), String::from("permission denied"))]
    );
    assert_eq!(sorted_matches(&out), vec![String::from("/root/B/C")]);
}

// Different pick-up orders — stand-ins for different worker pools — yield
// the same outcomes up to order.
#[test]
fn scheduling_order_never_changes_the_outcome_set() {
    let orders: [Vec<usize>; 4] =
        [Vec::new(), vec![1, 0, 2, 5], vec![7, 7, 7], vec![2, 1, 0, 1, 2]];
    let mut canonical: Option<(Vec<String>, Vec<(String, String)>)> = None;
    for order in orders {
        let tree = plain(
            "/root",
            vec![
                project("/root/A"),
                plain("/root/B", vec![project("/root/B/C")]),
                unlistable("/root/locked", "permission denied"),
                plain("/root/D", vec![]),
            ],
        );
        let out = scan_snapshot(tree, None, &order);
        let summary = (sorted_matches(&out), sorted_errors(&out));
        match &canonical {
            None => canonical = Some(summary),
            Some(c) => assert_eq!(&summary, c),
        }
    }
}

// An empty, markerless root produces nothing at all.
#[test]
fn empty_tree_produces_no_outcome() {
    let out = scan_snapshot(plain("/root", vec![]), None, &Vec::new());
    assert_eq!(out.len(), 0);
}
