//! The executor: attempts every planned rename, isolating per-item
//! failures so that one bad item never aborts the batch.
//!
//! The engine never touches the filesystem itself: the one capability it
//! needs, attempting a single rename, is a port its caller implements.

use vstd::prelude::*;

use crate::model::{
    failed_view, lemma_failed_view_push, tasks_view, FailedFileOperation, FailedV,
    FileOperationResult, FileOperationTask, TaskV,
};

verus! {

/// The single filesystem capability the engine needs: attempting the
/// rename one task describes. Callers implement it with the OS rename;
/// tests implement it with stubs. Nothing is assumed of the outcome:
/// the engine's guarantees hold whatever each attempt returns.
pub trait ExecuteTask {
    /// Attempts the rename; an `Err` carries the underlying error's
    /// message.
    fn execute_task(&mut self, task: &FileOperationTask) -> Result<(), String>;
}

/// The failure records a list of indexed errors describes: each
/// in-range index paired back to its task's source path.
pub open spec fn failed_ops_view(fails: Seq<(usize, String)>, ts: Seq<TaskV>) -> Seq<FailedV> {
    fails.filter(|e: (usize, String)| (e.0 as int) < ts.len()).map_values(
        |e: (usize, String)| (ts[e.0 as int].0, e.1@),
    )
}

/// Attempts every task in order. A failed attempt is recorded as the
/// task's index with the error message and never stops the rest.
///
/// The counts always account for every task: `successful + failed`
/// equals the number of tasks, and `failed` is the number of recorded
/// failures, whose indices are strictly increasing and in range.
pub fn run_tasks<E: ExecuteTask>(
    tasks: &Vec<FileOperationTask>,
    executor: &mut E,
    failed: &mut Vec<(usize, String)>,
) -> (r: FileOperationResult)
    requires
        old(failed)@.len() == 0,
    ensures
        r.successful + r.failed == tasks@.len(),
        r.failed == final(failed)@.len(),
        r.successful == tasks@.len() - final(failed)@.len(),
        forall|k: int|
            0 <= k < final(failed)@.len() ==> (#[trigger] final(failed)@[k]).0 < tasks@.len(),
        forall|k1: int, k2: int|
            0 <= k1 < k2 < final(failed)@.len() ==> final(failed)@[k1].0 < final(failed)@[k2].0,
{
    let mut i: usize = 0;
    while i < tasks.len()
        invariant
            i <= tasks@.len(),
            failed@.len() <= i,
            forall|k: int| 0 <= k < failed@.len() ==> (#[trigger] failed@[k]).0 < i,
            forall|k1: int, k2: int|
                0 <= k1 < k2 < failed@.len() ==> failed@[k1].0 < failed@[k2].0,
        decreases tasks@.len() - i,
    {
        let res = executor.execute_task(&tasks[i]);
        if let Result::Err(e) = res {
            failed.push((i, e));
        }
        i = i + 1;
    }
    let n_failed = failed.len();
    FileOperationResult::new(tasks.len() - n_failed, n_failed)
}

/// Pairs each recorded failure back to its task, yielding the failure
/// records in the order the failures happened.
pub fn failed_operations(
    tasks: &Vec<FileOperationTask>,
    failed: &Vec<(usize, String)>,
) -> (r: Vec<FailedFileOperation>)
    ensures
        failed_view(r@) == failed_ops_view(failed@, tasks_view(tasks@)),
{
    let ghost ts = tasks_view(tasks@);
    let ghost in_range = |e: (usize, String)| (e.0 as int) < ts.len();
    let ghost to_record = |e: (usize, String)| (ts[e.0 as int].0, e.1@);
    let mut out: Vec<FailedFileOperation> = Vec::new();
    let mut k: usize = 0;
    proof {
        assert(failed@.take(0) =~= Seq::<(usize, String)>::empty());
        assert(failed_view(out@) =~= failed_ops_view(failed@.take(0), ts));
    }
    while k < failed.len()
        invariant
            k <= failed@.len(),
            ts == tasks_view(tasks@),
            in_range == (|e: (usize, String)| (e.0 as int) < ts.len()),
            to_record == (|e: (usize, String)| (ts[e.0 as int].0, e.1@)),
            failed_view(out@) =~= failed@.take(k as int).filter(in_range).map_values(to_record),
        decreases failed@.len() - k,
    {
        let idx = failed[k].0;
        if idx < tasks.len() {
            let rec = FailedFileOperation::new(tasks[idx].from.clone(), failed[k].1.clone());
            let ghost before = out@;
            out.push(rec);
            proof {
                lemma_failed_view_push(before, out@.last());
                assert(out@.last()@ == to_record(failed@[k as int]));
            }
        }
        proof {
            reveal(Seq::filter);
            let t = failed@.take(k + 1);
            assert(t.drop_last() =~= failed@.take(k as int));
            assert(t.last() == failed@[k as int]);
            if in_range(failed@[k as int]) {
                assert(t.filter(in_range) =~= failed@.take(k as int).filter(in_range).push(
                    failed@[k as int],
                ));
                assert(t.filter(in_range).map_values(to_record) =~= failed@.take(
                    k as int,
                ).filter(in_range).map_values(to_record).push(to_record(failed@[k as int])));
            } else {
                assert(t.filter(in_range) =~= failed@.take(k as int).filter(in_range));
            }
            assert(failed_view(out@) =~= t.filter(in_range).map_values(to_record));
        }
        k = k + 1;
    }
    proof {
        assert(failed@.take(failed@.len() as int) =~= failed@);
    }
    out
}

} // verus!
