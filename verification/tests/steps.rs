use cargo_sweep::outcome::ScanOutcome;
use cargo_sweep::scanner::{DirEvent, Scanner, Task};

// Drive the incremental engine by hand, the way a worker loop does: take a
// pending directory, probe it, report the observation, collect the outcome.
#[test]
fn a_hand_driven_scan_visits_each_directory_once() {
    let mut sc: Scanner<String> = Scanner::new(String::from("/root"), None);
    assert_eq!(sc.pending_count(), 1);

    let Task { payload, depth } = sc.take_task(0);
    assert_eq!(payload, "/root");
    assert_eq!(depth, 0);
    assert!(sc.expands(depth));
    let none = sc.report(
        payload,
        depth,
        DirEvent::Listed { subdirs: vec![String::from("/root/A"), String::from("/root/B")] },
    );
    assert!(none.is_none());
    assert_eq!(sc.pending_count(), 2);

    // Workers may pick in any order: take the later entry first.
    let Task { payload, depth } = sc.take_task(1);
    assert_eq!(payload, "/root/B");
    assert_eq!(depth, 1);
    let matched = sc.report(payload, depth, DirEvent::MarkerFound);
    assert_eq!(matched, Some(ScanOutcome::Matched { path: String::from("/root/B") }));
    assert_eq!(sc.pending_count(), 1);

    let Task { payload, depth } = sc.take_task(0);
    let err = sc.report(
        payload,
        depth,
        DirEvent::ListFailed { cause: String::from("permission denied") },
    );
    assert_eq!(
        err,
        Some(ScanOutcome::ScanError {
            path: String::from("/root/A"),
            cause: String::from("permission denied"),
        })
    );
    assert_eq!(sc.pending_count(), 0);
}

// At the boundary depth the engine refuses expansion and the visit reports
// no outcome for a markerless directory.
#[test]
fn the_engine_refuses_expansion_at_the_depth_limit() {
    let mut sc: Scanner<String> = Scanner::new(String::from("/root"), Some(0));
    let Task { payload, depth } = sc.take_task(0);
    assert!(!sc.expands(depth));
    let none = sc.report(payload, depth, DirEvent::NotExpanded);
    assert!(none.is_none());
    assert_eq!(sc.pending_count(), 0);
}

// A failed marker probe ends the visit with a scan error and nothing is
// enqueued beneath it.
#[test]
fn a_failed_marker_probe_abandons_the_branch() {
    let mut sc: Scanner<String> = Scanner::new(String::from("/root"), None);
    let Task { payload, depth } = sc.take_task(0);
    let err = sc.report(
        payload,
        depth,
        DirEvent::MarkerCheckFailed { cause: String::from("permission denied") },
    );
    assert_eq!(
        err,
        Some(ScanOutcome::ScanError {
            path: String::from("/root"),
            cause: String::from("permission denied"),
        })
    );
    assert_eq!(sc.pending_count(), 0);
}
