//! The action runner and the orchestrator: classifying how the external
//! cleanup action ended for each matched directory, and folding the scan's
//! outcome stream into the per-item reports handed to the caller.
//!
//! The cleanup action itself is an opaque external collaborator; the caller
//! runs it and reports back only how it ended. Exactly one cleanup attempt is
//! owed per match, and no failure — of a cleanup or of a scan — ever stops
//! or alters the processing of any other item.

use vstd::prelude::*;
use crate::outcome::{
    outcome_models, report_models, status_models, ActionOutcome, ActionOutcomeModel, ActionStatus,
    ActionStatusModel, RunReport, RunReportModel, ScanOutcome, ScanOutcomeModel,
};

verus! {

/// What the orchestrator does next with one scan outcome: run the cleanup
/// action on a match, or pass a scan failure straight through.
pub enum CleanupStep {
    RunCleanup { path: String },
    Report { report: RunReport },
}

/// Classified cleanup result as a function of how the action ended.
pub open spec fn spec_classify(path: Seq<char>, st: ActionStatusModel) -> ActionOutcomeModel {
    match st {
        ActionStatusModel::Succeeded => (ActionOutcomeModel::Cleaned { path }),
        ActionStatusModel::Failed { cause } => (ActionOutcomeModel::ActionError { path, cause }),
    }
}

/// The report owed for one classified cleanup result.
pub open spec fn spec_report_of_action(a: ActionOutcomeModel) -> RunReportModel {
    match a {
        ActionOutcomeModel::Cleaned { path } => (RunReportModel::Cleaned { path }),
        ActionOutcomeModel::ActionError { path, cause } => (RunReportModel::ActionFailed {
            path,
            cause,
        }),
    }
}

/// The report owed for one scan outcome, given how its own cleanup ended
/// (ignored for a scan error, which gets no cleanup).
pub open spec fn spec_report_for(o: ScanOutcomeModel, st: ActionStatusModel) -> RunReportModel {
    match o {
        ScanOutcomeModel::Matched { path } => spec_report_of_action(spec_classify(path, st)),
        ScanOutcomeModel::ScanError { path, cause } => (RunReportModel::ScanFailed { path, cause }),
    }
}

/// How many outcomes in the stream are matches — each owed exactly one
/// cleanup attempt.
pub open spec fn matched_count(outs: Seq<ScanOutcomeModel>) -> nat
    decreases outs,
{
    if outs.len() == 0 {
        0
    } else {
        (if outs[0] is Matched {
            1nat
        } else {
            0nat
        }) + matched_count(outs.drop_first())
    }
}

/// The reports owed for a whole outcome stream, with `sts` holding how the
/// cleanup of each successive match ended, in stream order.
pub open spec fn spec_reports(outs: Seq<ScanOutcomeModel>, sts: Seq<ActionStatusModel>) -> Seq<
    RunReportModel,
>
    decreases outs,
{
    if outs.len() == 0 {
        Seq::empty()
    } else {
        match outs[0] {
            ScanOutcomeModel::Matched { .. } => seq![spec_report_for(outs[0], sts[0])]
                + spec_reports(outs.drop_first(), sts.drop_first()),
            ScanOutcomeModel::ScanError { .. } => seq![
                spec_report_for(outs[0], ActionStatusModel::Succeeded),
            ] + spec_reports(outs.drop_first(), sts),
        }
    }
}

/// Splitting the outcome stream splits its match count.
pub proof fn lemma_matched_count_split(outs: Seq<ScanOutcomeModel>, i: int)
    requires
        0 <= i <= outs.len(),
    ensures
        matched_count(outs) == matched_count(outs.take(i)) + matched_count(outs.skip(i)),
    decreases i,
{
    if i == 0 {
        assert(outs.take(0) =~= Seq::<ScanOutcomeModel>::empty());
        assert(outs.skip(0) =~= outs);
    } else {
        lemma_matched_count_split(outs.drop_first(), i - 1);
        assert(outs.take(i).drop_first() =~= outs.drop_first().take(i - 1));
        assert(outs.take(i)[0] == outs[0]);
        assert(outs.skip(i) =~= outs.drop_first().skip(i - 1));
    }
}

/// The orchestrator owes exactly one report per outcome, and each report is
/// a function of that outcome alone together with — for a match — how its
/// own cleanup ended. So a cleanup failure surfaces as exactly one failure
/// report, for its own directory, and neither stops nor changes the report
/// of any other outcome.
pub proof fn lemma_reports_pointwise(outs: Seq<ScanOutcomeModel>, sts: Seq<ActionStatusModel>)
    requires
        sts.len() == matched_count(outs),
    ensures
        spec_reports(outs, sts).len() == outs.len(),
        forall|i: int|
            0 <= i < outs.len() ==> #[trigger] spec_reports(outs, sts)[i] == spec_report_for(
                outs[i],
                sts[matched_count(outs.take(i)) as int],
            ),
    decreases outs.len(),
{
    if outs.len() > 0 {
        let rest = outs.drop_first();
        if outs[0] is Matched {
            lemma_reports_pointwise(rest, sts.drop_first());
        } else {
            lemma_reports_pointwise(rest, sts);
        }
        assert forall|i: int| 0 <= i < outs.len() implies #[trigger] spec_reports(outs, sts)[i]
            == spec_report_for(outs[i], sts[matched_count(outs.take(i)) as int]) by {
            if i == 0 {
                assert(outs.take(0) =~= Seq::<ScanOutcomeModel>::empty());
            } else {
                assert(outs.take(i).drop_first() =~= rest.take(i - 1));
                assert(outs.take(i)[0] == outs[0]);
                let mc_rest = matched_count(rest.take(i - 1)) as int;
                if rest[i - 1] is Matched {
                    lemma_matched_count_split(rest, i - 1);
                    assert(rest.skip(i - 1)[0] == rest[i - 1]);
                    assert(matched_count(rest.skip(i - 1)) >= 1);
                }
                if outs[0] is Matched {
                    assert(spec_reports(outs, sts)[i] == spec_reports(rest, sts.drop_first())[i
                        - 1]);
                    if rest[i - 1] is Matched {
                        assert(sts.drop_first()[mc_rest] == sts[mc_rest + 1]);
                    }
                } else {
                    assert(spec_reports(outs, sts)[i] == spec_reports(rest, sts)[i - 1]);
                }
            }
        }
    }
}

/// No cleanup failure ever leaks beyond its own item: two runs whose cleanup
/// endings differ only for the `k`-th match produce reports that differ at
/// most at that match's own position, and when that cleanup failed, its one
/// report is the action error naming that directory and carrying that cause.
pub proof fn lemma_action_failure_isolated(
    outs: Seq<ScanOutcomeModel>,
    s1: Seq<ActionStatusModel>,
    s2: Seq<ActionStatusModel>,
    k: int,
)
    requires
        s1.len() == matched_count(outs),
        s2.len() == s1.len(),
        0 <= k < s1.len(),
        forall|j: int| 0 <= j < s1.len() && j != k ==> s1[j] == s2[j],
    ensures
        spec_reports(outs, s1).len() == outs.len(),
        spec_reports(outs, s2).len() == outs.len(),
        forall|i: int|
            0 <= i < outs.len() && !(outs[i] is Matched && matched_count(outs.take(i)) == k)
                ==> #[trigger] spec_reports(outs, s1)[i] == spec_reports(outs, s2)[i],
        forall|i: int|
            0 <= i < outs.len() && outs[i] is Matched && matched_count(outs.take(i)) == k && s1[k]
                is Failed ==> #[trigger] spec_reports(outs, s1)[i]
                == (RunReportModel::ActionFailed {
                path: outs[i]->Matched_path,
                cause: s1[k]->Failed_cause,
            }),
{
    lemma_reports_pointwise(outs, s1);
    lemma_reports_pointwise(outs, s2);
    assert forall|i: int|
        0 <= i < outs.len() && !(outs[i] is Matched && matched_count(outs.take(i)) == k)
        implies #[trigger] spec_reports(outs, s1)[i] == spec_reports(outs, s2)[i] by {
        if outs[i] is Matched {
            lemma_matched_count_split(outs, i);
            assert(outs.skip(i)[0] == outs[i]);
            assert(matched_count(outs.skip(i)) >= 1);
        }
    }
}

/// Decide what one scan outcome requires: cleanup for a match, a direct
/// failure report for a scan error.
pub fn plan_outcome(o: ScanOutcome) -> (s: CleanupStep)
    ensures
        match o@ {
            ScanOutcomeModel::Matched { path } => s matches CleanupStep::RunCleanup { path: p }
                && p@ == path,
            ScanOutcomeModel::ScanError { path, cause } => s matches CleanupStep::Report {
                report,
            } && report@ == (RunReportModel::ScanFailed { path, cause }),
        },
{
    match o {
        ScanOutcome::Matched { path } => CleanupStep::RunCleanup { path },
        ScanOutcome::ScanError { path, cause } => CleanupStep::Report {
            report: RunReport::ScanFailed { path, cause },
        },
    }
}

/// Classify how the cleanup action ended for one matched directory: clean
/// success becomes `Cleaned`; any other ending — non-zero exit, spawn
/// failure, I/O error — becomes `ActionError` with its cause, never silently
/// swallowed.
pub fn classify_cleanup(path: String, status: ActionStatus) -> (r: ActionOutcome)
    ensures
        r@ == spec_classify(path@, status@),
{
    match status {
        ActionStatus::Succeeded => ActionOutcome::Cleaned { path },
        ActionStatus::Failed { cause } => ActionOutcome::ActionError { path, cause },
    }
}

/// Turn one classified cleanup result into the report handed to the caller.
pub fn report_of_action(a: ActionOutcome) -> (r: RunReport)
    ensures
        r@ == spec_report_of_action(a@),
{
    match a {
        ActionOutcome::Cleaned { path } => RunReport::Cleaned { path },
        ActionOutcome::ActionError { path, cause } => RunReport::ActionFailed { path, cause },
    }
}

/// Drive the whole outcome stream: one report per outcome, in stream order.
/// A match consumes the next cleanup status; a scan error is forwarded as a
/// failure report untouched. No outcome is ever dropped and none aborts the
/// run.
pub fn orchestrate(outcomes: Vec<ScanOutcome>, statuses: Vec<ActionStatus>) -> (reports: Vec<
    RunReport,
>)
    requires
        statuses@.len() == matched_count(outcome_models(outcomes@)),
    ensures
        report_models(reports@) == spec_reports(
            outcome_models(outcomes@),
            status_models(statuses@),
        ),
        reports@.len() == outcomes@.len(),
{
    let ghost outs0 = outcome_models(outcomes@);
    let ghost sts0 = status_models(statuses@);
    let mut outs = outcomes;
    let mut sts = statuses;
    let mut reports: Vec<RunReport> = Vec::new();
    while outs.len() > 0
        invariant
            sts@.len() == matched_count(outcome_models(outs@)),
            report_models(reports@) + spec_reports(outcome_models(outs@), status_models(sts@))
                == spec_reports(outs0, sts0),
            reports@.len() + outs@.len() == outs0.len(),
        decreases outs@.len(),
    {
        let ghost pre_outs = outcome_models(outs@);
        let ghost pre_sts = status_models(sts@);
        let ghost pre_reports = report_models(reports@);
        let o = outs.remove(0);
        proof {
            assert(outcome_models(outs@) =~= pre_outs.drop_first());
        }
        let step = plan_outcome(o);
        match step {
            CleanupStep::RunCleanup { path } => {
                let ghost gpath = path@;
                let st = sts.remove(0);
                let ghost gst = st@;
                proof {
                    assert(status_models(sts@) =~= pre_sts.drop_first());
                }
                let a = classify_cleanup(path, st);
                let r = report_of_action(a);
                let ghost gr = r@;
                reports.push(r);
                proof {
                    assert(gr == spec_report_for(pre_outs[0], pre_sts[0]));
                    assert(report_models(reports@) =~= pre_reports.push(gr));
                    assert(spec_reports(pre_outs, pre_sts) == seq![gr] + spec_reports(
                        outcome_models(outs@),
                        status_models(sts@),
                    ));
                    assert(pre_reports.push(gr) =~= pre_reports + seq![gr]);
                    assert((pre_reports + seq![gr]) + spec_reports(
                        outcome_models(outs@),
                        status_models(sts@),
                    ) =~= pre_reports + (seq![gr] + spec_reports(
                        outcome_models(outs@),
                        status_models(sts@),
                    )));
                }
            },
            CleanupStep::Report { report } => {
                let ghost gr = report@;
                reports.push(report);
                proof {
                    assert(report_models(reports@) =~= pre_reports.push(gr));
                    assert(spec_reports(pre_outs, pre_sts) == seq![gr] + spec_reports(
                        outcome_models(outs@),
                        status_models(sts@),
                    ));
                    assert(pre_reports.push(gr) =~= pre_reports + seq![gr]);
                    assert((pre_reports + seq![gr]) + spec_reports(
                        outcome_models(outs@),
                        status_models(sts@),
                    ) =~= pre_reports + (seq![gr] + spec_reports(
                        outcome_models(outs@),
                        status_models(sts@),
                    )));
                }
            },
        }
    }
    proof {
        assert(outcome_models(outs@).len() == 0);
        assert(spec_reports(outcome_models(outs@), status_models(sts@)) =~= Seq::<
            RunReportModel,
        >::empty());
        assert(report_models(reports@) + Seq::<RunReportModel>::empty() =~= report_models(
            reports@,
        ));
    }
    reports
}

} // verus!
