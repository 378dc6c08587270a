//! The orchestrator's decisions: what a run does next, and how a batch
//! outcome is summarised.
//!
//! A run plans, reports the plan, checks for conflicts, and only then —
//! and only when asked — executes. These functions pin that sequencing
//! down; the surrounding tool performs the printing and the filesystem
//! work.

use vstd::prelude::*;

use crate::check::conflict_records;
use crate::model::{FailedV, FileOperationResult, TaskV};
use crate::plan::{plan_spec, TransformV};

verus! {

/// What a run does after planning and checking.
#[derive(Clone, Copy, Debug, PartialEq, Eq, Structural)]
pub enum RunDecision {
    /// The plan is empty: report that there is nothing to do and stop.
    NothingToDo,
    /// The check found hazards: report them and refuse to execute.
    ConflictAbort,
    /// Execution was not requested: report the plan only.
    DryRun,
    /// The plan is safe and execution was requested.
    Execute,
}

/// The decision for a run: an empty plan stops first, a conflict always
/// blocks execution, and without an explicit request the run stays dry.
pub open spec fn decide_spec(task_count: nat, has_conflict: bool, do_exec: bool) -> RunDecision {
    if task_count == 0 {
        RunDecision::NothingToDo
    } else if has_conflict {
        RunDecision::ConflictAbort
    } else if !do_exec {
        RunDecision::DryRun
    } else {
        RunDecision::Execute
    }
}

/// Decides what a run does next.
pub fn decide_run(task_count: usize, has_conflict: bool, do_exec: bool) -> (d: RunDecision)
    ensures
        d == decide_spec(task_count as nat, has_conflict, do_exec),
{
    if task_count == 0 {
        RunDecision::NothingToDo
    } else if has_conflict {
        RunDecision::ConflictAbort
    } else if !do_exec {
        RunDecision::DryRun
    } else {
        RunDecision::Execute
    }
}

/// *No mutation on conflict*: when the check reports a hazard, the run
/// never decides to execute, so no filesystem state changes.
pub proof fn lemma_conflict_blocks_execution(task_count: nat, do_exec: bool)
    ensures
        decide_spec(task_count, true, do_exec) != RunDecision::Execute,
{
}

/// *Idempotent dry run*: two dry runs over the same candidates, transform
/// and pre-existing files produce the very same plan and the very same
/// hazard records, and neither decides to execute.
pub proof fn lemma_dry_run_idempotent(
    t: TransformV,
    ps: Seq<Seq<u8>>,
    roots: Seq<Seq<u8>>,
    nested_reason: Seq<char>,
    outer_reason: Seq<char>,
    plan1: Seq<TaskV>,
    plan2: Seq<TaskV>,
    recs1: Seq<FailedV>,
    recs2: Seq<FailedV>,
    has_conflict: bool,
)
    requires
        plan1 == plan_spec(t, ps),
        plan2 == plan_spec(t, ps),
        recs1 == conflict_records(plan1, roots, nested_reason, outer_reason),
        recs2 == conflict_records(plan2, roots, nested_reason, outer_reason),
    ensures
        plan1 == plan2,
        recs1 == recs2,
        decide_spec(plan1.len(), has_conflict, false) != RunDecision::Execute,
{
}

/// How a batch outcome reads in the final report.
#[derive(Clone, Copy, Debug, PartialEq, Eq, Structural)]
pub enum SummaryKind {
    /// Every attempted rename succeeded.
    AllSucceeded,
    /// Every attempted rename failed.
    AllFailed,
    /// Some renames succeeded and some failed.
    Partial,
}

/// The summary of a batch outcome.
pub open spec fn summary_spec(successful: nat, failed: nat) -> SummaryKind {
    if failed == 0 {
        SummaryKind::AllSucceeded
    } else if successful == 0 {
        SummaryKind::AllFailed
    } else {
        SummaryKind::Partial
    }
}

/// Summarises a batch outcome for the final report.
pub fn summarize(result: &FileOperationResult) -> (s: SummaryKind)
    ensures
        s == summary_spec(result.successful as nat, result.failed as nat),
{
    if result.failed == 0 {
        SummaryKind::AllSucceeded
    } else if result.successful == 0 {
        SummaryKind::AllFailed
    } else {
        SummaryKind::Partial
    }
}

} // verus!
