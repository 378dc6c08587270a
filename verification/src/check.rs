//! The conflict checker: the sole gate protecting against destructive
//! overwrites.
//!
//! Two hazard classes are detected for every task. A *nested clash*:
//! another task with a different source plans the same destination. An
//! *outer clash*: the destination is a pre-existing file that no task
//! moves away, so an untouched bystander would be overwritten. Every
//! offending task is recorded once, with one bulleted reason line per
//! hazard, and the records are returned sorted in the reporting order.
//! The check itself mutates nothing.

use vstd::prelude::*;
use vstd::string::StringExecFns;

use crate::errors::CheckBeforeError;
use crate::model::{
    failed_order, failed_view, lemma_failed_order_properties, lemma_failed_view_push, sort_failed,
    tasks_view, FailedFileOperation, FailedV, FileOperationTask, TaskV,
};
use crate::order::{
    insertion_sort, lemma_insertion_sort_contains, lemma_insertion_sort_multiset,
    lemma_insertion_sort_sorted,
};
use crate::path::{paths_view, FsPath};
use vstd::relations::sorted_by;

verus! {

/// Task `i` clashes with another planned task: a different source maps
/// to the same destination.
pub open spec fn nested_clash(ts: Seq<TaskV>, i: int) -> bool {
    exists|j: int| 0 <= j < ts.len() && ts[j].0 != ts[i].0 && ts[j].1 == ts[i].1
}

/// Whether `p` is the source of some planned task.
pub open spec fn is_planned_source(ts: Seq<TaskV>, p: Seq<u8>) -> bool {
    exists|k: int| 0 <= k < ts.len() && ts[k].0 == p
}

/// Task `i` clashes with a bystander: its destination is a pre-existing
/// file that is not itself a planned source.
pub open spec fn outer_clash(ts: Seq<TaskV>, roots: Seq<Seq<u8>>, i: int) -> bool {
    roots.contains(ts[i].1) && !is_planned_source(ts, ts[i].1)
}

/// Task `i` carries at least one hazard.
pub open spec fn offending(ts: Seq<TaskV>, roots: Seq<Seq<u8>>, i: int) -> bool {
    nested_clash(ts, i) || outer_clash(ts, roots, i)
}

/// Some task carries a hazard.
pub open spec fn has_conflict(ts: Seq<TaskV>, roots: Seq<Seq<u8>>) -> bool {
    exists|i: int| 0 <= i < ts.len() && offending(ts, roots, i)
}

/// The reason text of an offending task: one bulleted line per hazard.
pub open spec fn reason_text(
    nested: bool,
    outer: bool,
    nested_reason: Seq<char>,
    outer_reason: Seq<char>,
) -> Seq<char> {
    (if nested {
        "\n- "@ + nested_reason
    } else {
        Seq::<char>::empty()
    }) + (if outer {
        "\n- "@ + outer_reason
    } else {
        Seq::<char>::empty()
    })
}

/// The failure record of task `i`: its source path and its reasons.
pub open spec fn record_v(
    ts: Seq<TaskV>,
    roots: Seq<Seq<u8>>,
    i: int,
    nested_reason: Seq<char>,
    outer_reason: Seq<char>,
) -> FailedV {
    (
        ts[i].0,
        reason_text(nested_clash(ts, i), outer_clash(ts, roots, i), nested_reason, outer_reason),
    )
}

/// The records of the offending tasks among the first `n`, in task order.
pub open spec fn records_upto(
    ts: Seq<TaskV>,
    roots: Seq<Seq<u8>>,
    nested_reason: Seq<char>,
    outer_reason: Seq<char>,
    n: int,
) -> Seq<FailedV>
    decreases n,
{
    if n <= 0 {
        Seq::empty()
    } else {
        records_upto(ts, roots, nested_reason, outer_reason, n - 1) + (if offending(
            ts,
            roots,
            n - 1,
        ) {
            seq![record_v(ts, roots, n - 1, nested_reason, outer_reason)]
        } else {
            Seq::empty()
        })
    }
}

/// Every failure record of the batch, sorted into the reporting order.
pub open spec fn conflict_records(
    ts: Seq<TaskV>,
    roots: Seq<Seq<u8>>,
    nested_reason: Seq<char>,
    outer_reason: Seq<char>,
) -> Seq<FailedV> {
    insertion_sort(
        records_upto(ts, roots, nested_reason, outer_reason, ts.len() as int),
        failed_order(),
    )
}

/// The checker's output is the offending tasks' records, nothing more
/// and nothing less, sorted in the reporting order.
pub proof fn lemma_conflict_records_sorted(
    ts: Seq<TaskV>,
    roots: Seq<Seq<u8>>,
    nested_reason: Seq<char>,
    outer_reason: Seq<char>,
)
    ensures
        sorted_by(conflict_records(ts, roots, nested_reason, outer_reason), failed_order()),
        conflict_records(ts, roots, nested_reason, outer_reason).to_multiset() == records_upto(
            ts,
            roots,
            nested_reason,
            outer_reason,
            ts.len() as int,
        ).to_multiset(),
{
    lemma_failed_order_properties();
    let recs = records_upto(ts, roots, nested_reason, outer_reason, ts.len() as int);
    lemma_insertion_sort_sorted(recs, failed_order());
    lemma_insertion_sort_multiset(recs, failed_order());
}

/// There are records among the first `n` tasks exactly when one of them
/// is offending.
proof fn lemma_records_len(
    ts: Seq<TaskV>,
    roots: Seq<Seq<u8>>,
    nested_reason: Seq<char>,
    outer_reason: Seq<char>,
    n: int,
)
    requires
        0 <= n <= ts.len(),
    ensures
        records_upto(ts, roots, nested_reason, outer_reason, n).len() > 0 <==> exists|i: int|
            0 <= i < n && offending(ts, roots, i),
    decreases n,
{
    if n > 0 {
        lemma_records_len(ts, roots, nested_reason, outer_reason, n - 1);
    }
}

/// An offending task's record stands among the records of any prefix
/// that reaches it.
pub proof fn lemma_records_contains(
    ts: Seq<TaskV>,
    roots: Seq<Seq<u8>>,
    nested_reason: Seq<char>,
    outer_reason: Seq<char>,
    i: int,
    n: int,
)
    requires
        0 <= i < n <= ts.len(),
        offending(ts, roots, i),
    ensures
        records_upto(ts, roots, nested_reason, outer_reason, n).contains(
            record_v(ts, roots, i, nested_reason, outer_reason),
        ),
    decreases n,
{
    let whole = records_upto(ts, roots, nested_reason, outer_reason, n);
    let prefix = records_upto(ts, roots, nested_reason, outer_reason, n - 1);
    if i == n - 1 {
        assert(whole[prefix.len() as int] == record_v(ts, roots, i, nested_reason, outer_reason));
    } else {
        lemma_records_contains(ts, roots, nested_reason, outer_reason, i, n - 1);
        let k = choose|k: int|
            0 <= k < prefix.len() && prefix[k] == record_v(
                ts,
                roots,
                i,
                nested_reason,
                outer_reason,
            );
        assert(whole[k] == prefix[k]);
    }
}

/// Whether some other task plans the same destination from a different
/// source.
fn has_nested_clash(tasks: &Vec<FileOperationTask>, i: usize) -> (r: bool)
    requires
        i < tasks@.len(),
    ensures
        r == nested_clash(tasks_view(tasks@), i as int),
{
    let ghost ts = tasks_view(tasks@);
    let mut j: usize = 0;
    while j < tasks.len()
        invariant
            j <= tasks@.len(),
            i < tasks@.len(),
            ts == tasks_view(tasks@),
            forall|k: int|
                0 <= k < j ==> !((#[trigger] ts[k]).0 != ts[i as int].0 && ts[k].1 == ts[i as int].1),
        decreases tasks@.len() - j,
    {
        if !(tasks[j].from == tasks[i].from) && tasks[j].to == tasks[i].to {
            proof {
                assert(ts[j as int].0 != ts[i as int].0 && ts[j as int].1 == ts[i as int].1);
            }
            return true;
        }
        j = j + 1;
    }
    false
}

/// Whether `p` stands among the given paths.
fn paths_contain(paths: &Vec<FsPath>, p: &FsPath) -> (r: bool)
    ensures
        r == paths_view(paths@).contains(p@),
{
    let mut k: usize = 0;
    while k < paths.len()
        invariant
            k <= paths@.len(),
            forall|m: int| 0 <= m < k ==> paths_view(paths@)[m] != p@,
        decreases paths@.len() - k,
    {
        if paths[k] == *p {
            proof {
                assert(paths_view(paths@)[k as int] == p@);
            }
            return true;
        }
        k = k + 1;
    }
    false
}

/// Whether `p` is the source of some planned task.
fn is_source_of_any(tasks: &Vec<FileOperationTask>, p: &FsPath) -> (r: bool)
    ensures
        r == is_planned_source(tasks_view(tasks@), p@),
{
    let ghost ts = tasks_view(tasks@);
    let mut k: usize = 0;
    while k < tasks.len()
        invariant
            k <= tasks@.len(),
            ts == tasks_view(tasks@),
            forall|m: int| 0 <= m < k ==> (#[trigger] ts[m]).0 != p@,
        decreases tasks@.len() - k,
    {
        if tasks[k].from == *p {
            proof {
                assert(ts[k as int].0 == p@);
            }
            return true;
        }
        k = k + 1;
    }
    false
}

/// Builds the bulleted reason text for one offending task.
fn build_reason(nested: bool, outer: bool, nested_reason: &str, outer_reason: &str) -> (r: String)
    ensures
        r@ == reason_text(nested, outer, nested_reason@, outer_reason@),
{
    let mut s = String::new();
    if nested {
        s.append("\n- ");
        s.append(nested_reason);
    }
    if outer {
        s.append("\n- ");
        s.append(outer_reason);
    }
    proof {
        assert(s@ =~= reason_text(nested, outer, nested_reason@, outer_reason@));
    }
    s
}

/// Checks a batch of tasks against each other and against the
/// pre-existing files. Returns `None` exactly when no task carries a
/// hazard; otherwise returns every offending task's record, sorted.
pub fn check_tasks(
    tasks: &Vec<FileOperationTask>,
    root_files: &Vec<FsPath>,
    nested_reason: &str,
    outer_reason: &str,
) -> (r: Option<CheckBeforeError>)
    ensures
        ({
            let ts = tasks_view(tasks@);
            let roots = paths_view(root_files@);
            match r {
                Option::Some(e) => has_conflict(ts, roots) && (match e {
                    CheckBeforeError::FilesWouldOverwrite(l) => failed_view(l@)
                        == conflict_records(ts, roots, nested_reason@, outer_reason@),
                }),
                Option::None => !has_conflict(ts, roots),
            }
        }),
{
    let ghost ts = tasks_view(tasks@);
    let ghost roots = paths_view(root_files@);
    let mut recs: Vec<FailedFileOperation> = Vec::new();
    let mut i: usize = 0;
    while i < tasks.len()
        invariant
            i <= tasks@.len(),
            ts == tasks_view(tasks@),
            roots == paths_view(root_files@),
            failed_view(recs@) =~= records_upto(ts, roots, nested_reason@, outer_reason@, i as int),
        decreases tasks@.len() - i,
    {
        let nested = has_nested_clash(tasks, i);
        let in_roots = paths_contain(root_files, &tasks[i].to);
        let outer = in_roots && !is_source_of_any(tasks, &tasks[i].to);
        proof {
            assert(outer == outer_clash(ts, roots, i as int));
        }
        if nested || outer {
            let reason = build_reason(nested, outer, nested_reason, outer_reason);
            let rec = FailedFileOperation::new(tasks[i].from.clone(), reason);
            let ghost before = recs@;
            recs.push(rec);
            proof {
                lemma_failed_view_push(before, recs@.last());
                assert(recs@.last()@ == record_v(
                    ts,
                    roots,
                    i as int,
                    nested_reason@,
                    outer_reason@,
                ));
            }
        }
        proof {
            assert(failed_view(recs@) =~= records_upto(
                ts,
                roots,
                nested_reason@,
                outer_reason@,
                i + 1,
            ));
        }
        i = i + 1;
    }
    proof {
        lemma_records_len(ts, roots, nested_reason@, outer_reason@, ts.len() as int);
    }
    if recs.len() == 0 {
        Option::None
    } else {
        let sorted = sort_failed(recs);
        Option::Some(CheckBeforeError::FilesWouldOverwrite(sorted))
    }
}

/// *Conflict symmetry*: when two tasks share a destination but not a
/// source, both are nested clashes, and both records stand in the
/// checker's sorted output.
pub proof fn lemma_conflict_symmetry(
    ts: Seq<TaskV>,
    roots: Seq<Seq<u8>>,
    nested_reason: Seq<char>,
    outer_reason: Seq<char>,
    i: int,
    j: int,
)
    requires
        0 <= i < ts.len(),
        0 <= j < ts.len(),
        ts[i].0 != ts[j].0,
        ts[i].1 == ts[j].1,
    ensures
        nested_clash(ts, i),
        nested_clash(ts, j),
        has_conflict(ts, roots),
        conflict_records(ts, roots, nested_reason, outer_reason).contains(
            record_v(ts, roots, i, nested_reason, outer_reason),
        ),
        conflict_records(ts, roots, nested_reason, outer_reason).contains(
            record_v(ts, roots, j, nested_reason, outer_reason),
        ),
{
    assert(nested_clash(ts, i)) by {
        assert(ts[j].0 != ts[i].0 && ts[j].1 == ts[i].1);
    }
    assert(nested_clash(ts, j)) by {
        assert(ts[i].0 != ts[j].0 && ts[i].1 == ts[j].1);
    }
    lemma_records_contains(ts, roots, nested_reason, outer_reason, i, ts.len() as int);
    lemma_records_contains(ts, roots, nested_reason, outer_reason, j, ts.len() as int);
    lemma_insertion_sort_contains(
        records_upto(ts, roots, nested_reason, outer_reason, ts.len() as int),
        failed_order(),
        record_v(ts, roots, i, nested_reason, outer_reason),
    );
    lemma_insertion_sort_contains(
        records_upto(ts, roots, nested_reason, outer_reason, ts.len() as int),
        failed_order(),
        record_v(ts, roots, j, nested_reason, outer_reason),
    );
}

/// *Bystander protection*: a destination equal to a pre-existing file
/// that no task has as its source is always flagged as an outer clash,
/// and its task's record stands in the checker's sorted output.
pub proof fn lemma_bystander_flagged(
    ts: Seq<TaskV>,
    roots: Seq<Seq<u8>>,
    nested_reason: Seq<char>,
    outer_reason: Seq<char>,
    i: int,
)
    requires
        0 <= i < ts.len(),
        roots.contains(ts[i].1),
        forall|k: int| 0 <= k < ts.len() ==> (#[trigger] ts[k]).0 != ts[i].1,
    ensures
        outer_clash(ts, roots, i),
        has_conflict(ts, roots),
        conflict_records(ts, roots, nested_reason, outer_reason).contains(
            record_v(ts, roots, i, nested_reason, outer_reason),
        ),
{
    assert(!is_planned_source(ts, ts[i].1)) by {
        if is_planned_source(ts, ts[i].1) {
            let k = choose|k: int| 0 <= k < ts.len() && ts[k].0 == ts[i].1;
            assert(ts[k].0 != ts[i].1);
        }
    }
    assert(has_conflict(ts, roots)) by {
        assert(0 <= i < ts.len() && offending(ts, roots, i));
    }
    lemma_records_contains(ts, roots, nested_reason, outer_reason, i, ts.len() as int);
    lemma_insertion_sort_contains(
        records_upto(ts, roots, nested_reason, outer_reason, ts.len() as int),
        failed_order(),
        record_v(ts, roots, i, nested_reason, outer_reason),
    );
}

} // verus!
