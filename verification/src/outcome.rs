//! The tagged results produced by a scan: what the traversal engine emits for
//! each visited directory, what the action runner reports for each match, and
//! the per-item reports the orchestrator hands to its caller.

use vstd::prelude::*;

verus! {

/// Result of visiting one directory during traversal: either the directory is
/// a project root, or it could not be examined at all.
///
/// Directories that are readable but are not project roots produce no outcome.
#[derive(Debug, PartialEq, Eq)]
pub enum ScanOutcome {
    Matched { path: String },
    ScanError { path: String, cause: String },
}

/// Mathematical value of a [`ScanOutcome`]: the same tag over character
/// sequences.
#[verifier::ext_equal]
pub enum ScanOutcomeModel {
    Matched { path: Seq<char> },
    ScanError { path: Seq<char>, cause: Seq<char> },
}

impl View for ScanOutcome {
    type V = ScanOutcomeModel;

    open spec fn view(&self) -> ScanOutcomeModel {
        match self {
            ScanOutcome::Matched { path } => (ScanOutcomeModel::Matched { path: path@ }),
            ScanOutcome::ScanError { path, cause } => (ScanOutcomeModel::ScanError {
                path: path@,
                cause: cause@,
            }),
        }
    }
}

/// How one invocation of the external cleanup action ended, as observed by
/// the caller that ran it: clean success, or anything else (non-zero exit,
/// spawn failure, I/O error), uniformly with a cause.
#[derive(Debug, PartialEq, Eq)]
pub enum ActionStatus {
    Succeeded,
    Failed { cause: String },
}

/// Mathematical value of an [`ActionStatus`].
#[verifier::ext_equal]
pub enum ActionStatusModel {
    Succeeded,
    Failed { cause: Seq<char> },
}

impl View for ActionStatus {
    type V = ActionStatusModel;

    open spec fn view(&self) -> ActionStatusModel {
        match self {
            ActionStatus::Succeeded => ActionStatusModel::Succeeded,
            ActionStatus::Failed { cause } => (ActionStatusModel::Failed { cause: cause@ }),
        }
    }
}

/// Classified result of running the cleanup action on one matched directory.
#[derive(Debug, PartialEq, Eq)]
pub enum ActionOutcome {
    Cleaned { path: String },
    ActionError { path: String, cause: String },
}

/// Mathematical value of an [`ActionOutcome`].
#[verifier::ext_equal]
pub enum ActionOutcomeModel {
    Cleaned { path: Seq<char> },
    ActionError { path: Seq<char>, cause: Seq<char> },
}

impl View for ActionOutcome {
    type V = ActionOutcomeModel;

    open spec fn view(&self) -> ActionOutcomeModel {
        match self {
            ActionOutcome::Cleaned { path } => (ActionOutcomeModel::Cleaned { path: path@ }),
            ActionOutcome::ActionError { path, cause } => (ActionOutcomeModel::ActionError {
                path: path@,
                cause: cause@,
            }),
        }
    }
}

/// One item of the outcome stream the orchestrator reports to its caller:
/// a cleaned match, a match whose cleanup failed, or a directory that could
/// not be scanned.
#[derive(Debug, PartialEq, Eq)]
pub enum RunReport {
    Cleaned { path: String },
    ActionFailed { path: String, cause: String },
    ScanFailed { path: String, cause: String },
}

/// Mathematical value of a [`RunReport`].
#[verifier::ext_equal]
pub enum RunReportModel {
    Cleaned { path: Seq<char> },
    ActionFailed { path: Seq<char>, cause: Seq<char> },
    ScanFailed { path: Seq<char>, cause: Seq<char> },
}

impl View for RunReport {
    type V = RunReportModel;

    open spec fn view(&self) -> RunReportModel {
        match self {
            RunReport::Cleaned { path } => (RunReportModel::Cleaned { path: path@ }),
            RunReport::ActionFailed { path, cause } => (RunReportModel::ActionFailed {
                path: path@,
                cause: cause@,
            }),
            RunReport::ScanFailed { path, cause } => (RunReportModel::ScanFailed {
                path: path@,
                cause: cause@,
            }),
        }
    }
}

/// The sequence of model values of a sequence of scan outcomes.
pub open spec fn outcome_models(s: Seq<ScanOutcome>) -> Seq<ScanOutcomeModel> {
    s.map_values(|o: ScanOutcome| o@)
}

/// The sequence of model values of a sequence of action statuses.
pub open spec fn status_models(s: Seq<ActionStatus>) -> Seq<ActionStatusModel> {
    s.map_values(|st: ActionStatus| st@)
}

/// The sequence of model values of a sequence of run reports.
pub open spec fn report_models(s: Seq<RunReport>) -> Seq<RunReportModel> {
    s.map_values(|r: RunReport| r@)
}

} // verus!
