use cargo_sweep::is_cargo_project;
use cargo_sweep::outcome::{ActionOutcome, ActionStatus, RunReport, ScanOutcome};
use cargo_sweep::runner::{classify_cleanup, orchestrate, plan_outcome, report_of_action, CleanupStep};

#[test]
fn a_directory_with_the_marker_is_a_project() {
    assert!(is_cargo_project(true, true));
}

#[test]
fn a_directory_without_the_marker_is_no_project() {
    assert!(!is_cargo_project(true, false));
}

#[test]
fn a_file_is_no_project_even_beside_a_marker() {
    assert!(!is_cargo_project(false, true));
    assert!(!is_cargo_project(false, false));
}

#[test]
fn a_match_is_planned_for_cleanup() {
    let step = plan_outcome(ScanOutcome::Matched { path: String::from("/p") });
    assert!(matches!(step, CleanupStep::RunCleanup { path } if path == "/p"));
}

#[test]
fn a_scan_error_is_forwarded_untouched() {
    let step = plan_outcome(ScanOutcome::ScanError {
        path: String::from("/p"),
        cause: String::from("vanished"),
    });
    match step {
        CleanupStep::Report { report } => assert_eq!(
            report,
            RunReport::ScanFailed { path: String::from("/p"), cause: String::from("vanished") }
        ),
        CleanupStep::RunCleanup { .. } => panic!("a scan error must not be cleaned"),
    }
}

#[test]
fn a_clean_exit_is_classified_as_cleaned() {
    let r = classify_cleanup(String::from("/p"), ActionStatus::Succeeded);
    assert_eq!(r, ActionOutcome::Cleaned { path: String::from("/p") });
}

#[test]
fn any_other_ending_is_an_action_error_with_its_cause() {
    let r = classify_cleanup(
        String::from("/p"),
        ActionStatus::Failed { cause: String::from("exit status 101") },
    );
    assert_eq!(
        r,
        ActionOutcome::ActionError {
            path: String::from("/p"),
            cause: String::from("exit status 101")
        }
    );
}

#[test]
fn reports_mirror_action_outcomes() {
    let cleaned = report_of_action(ActionOutcome::Cleaned { path: String::from("/p") });
    assert_eq!(cleaned, RunReport::Cleaned { path: String::from("/p") });
    let failed = report_of_action(ActionOutcome::ActionError {
        path: String::from("/p"),
        cause: String::from("spawn failure"),
    });
    assert_eq!(
        failed,
        RunReport::ActionFailed { path: String::from("/p"), cause: String::from("spawn failure") }
    );
}

// One failed cleanup yields exactly one action error, for its own directory,
// and every other item — matches and scan errors alike — is processed and
// reported exactly as it would have been anyway.
#[test]
fn one_cleanup_failure_never_touches_other_items() {
    let outcomes = vec![
        ScanOutcome::Matched { path: String::from("/root/A") },
        ScanOutcome::ScanError {
            path: String::from("/root/locked"),
            cause: String::from("permission denied"),
        },
        ScanOutcome::Matched { path: String::from("/root/B/C") },
        ScanOutcome::Matched { path: String::from("/root/D") },
    ];
    let statuses = vec![
        ActionStatus::Succeeded,
        ActionStatus::Failed { cause: String::from("exit status 1") },
        ActionStatus::Succeeded,
    ];
    let reports = orchestrate(outcomes, statuses);
    assert_eq!(
        reports,
        vec![
            RunReport::Cleaned { path: String::from("/root/A") },
            RunReport::ScanFailed {
                path: String::from("/root/locked"),
                cause: String::from("permission denied"),
            },
            RunReport::ActionFailed {
                path: String::from("/root/B/C"),
                cause: String::from("exit status 1"),
            },
            RunReport::Cleaned { path: String::from("/root/D") },
        ]
    );
    let failures = reports
        .iter()
        .filter(|r| matches!(r, RunReport::ActionFailed { .. }))
        .count();
    assert_eq!(failures, 1);
}

#[test]
fn an_empty_run_reports_nothing() {
    let reports = orchestrate(Vec::new(), Vec::new());
    assert_eq!(reports.len(), 0);
}

#[test]
fn all_successes_report_all_cleaned() {
    let outcomes = vec![
        ScanOutcome::Matched { path: String::from("/a") },
        ScanOutcome::Matched { path: String::from("/b") },
    ];
    let statuses = vec![ActionStatus::Succeeded, ActionStatus::Succeeded];
    let reports = orchestrate(outcomes, statuses);
    assert_eq!(
        reports,
        vec![
            RunReport::Cleaned { path: String::from("/a") },
            RunReport::Cleaned { path: String::from("/b") },
        ]
    );
}
