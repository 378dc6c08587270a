//! The task model: a planned rename, a failure record, and batch counts.

use vstd::prelude::*;
use vstd::relations::{strongly_connected, transitive};

use crate::order::{insert_sorted, insertion_sort, lemma_insert_sorted_at, path_le, path_leq};
use crate::path::FsPath;

verus! {

/// The view of a planned task: the source and destination path bytes.
pub type TaskV = (Seq<u8>, Seq<u8>);

/// The view of a failure record: the path bytes and the reason.
pub type FailedV = (Seq<u8>, Seq<char>);

/// The reporting order on tasks: by source path.
pub open spec fn task_order() -> spec_fn(TaskV, TaskV) -> bool {
    |a: TaskV, b: TaskV| path_leq(a.0, b.0)
}

/// The reporting order on failure records: by path.
pub open spec fn failed_order() -> spec_fn(FailedV, FailedV) -> bool {
    |a: FailedV, b: FailedV| path_leq(a.0, b.0)
}

/// The task order compares any two tasks and is transitive.
pub proof fn lemma_task_order_properties()
    ensures
        strongly_connected(task_order()),
        transitive(task_order()),
{
    assert forall|a: TaskV, b: TaskV| #[trigger] task_order()(a, b) || task_order()(b, a) by {
        crate::order::lemma_path_leq_total(a.0, b.0);
    }
    assert forall|a: TaskV, b: TaskV, c: TaskV|
        #[trigger] task_order()(a, b) && #[trigger] task_order()(b, c) implies task_order()(
        a,
        c,
    ) by {
        crate::order::lemma_path_leq_trans(a.0, b.0, c.0);
    }
}

/// The failure-record order compares any two records and is transitive.
pub proof fn lemma_failed_order_properties()
    ensures
        strongly_connected(failed_order()),
        transitive(failed_order()),
{
    assert forall|a: FailedV, b: FailedV| #[trigger] failed_order()(a, b) || failed_order()(
        b,
        a,
    ) by {
        crate::order::lemma_path_leq_total(a.0, b.0);
    }
    assert forall|a: FailedV, b: FailedV, c: FailedV|
        #[trigger] failed_order()(a, b) && #[trigger] failed_order()(b, c) implies failed_order()(
        a,
        c,
    ) by {
        crate::order::lemma_path_leq_trans(a.0, b.0, c.0);
    }
}

/// One proposed filesystem rename: move `from` to `to`.
pub struct FileOperationTask {
    pub from: FsPath,
    pub to: FsPath,
}

impl View for FileOperationTask {
    type V = TaskV;

    open spec fn view(&self) -> TaskV {
        (self.from@, self.to@)
    }
}

impl FileOperationTask {
    /// Builds a task from its two paths.
    pub fn new(from: FsPath, to: FsPath) -> (t: FileOperationTask)
        ensures
            t.from == from,
            t.to == to,
    {
        FileOperationTask { from, to }
    }
}

impl Clone for FileOperationTask {
    /// A clone describes the same rename.
    fn clone(&self) -> (r: Self)
        ensures
            r@ == self@,
    {
        FileOperationTask { from: self.from.clone(), to: self.to.clone() }
    }
}

impl PartialEq for FileOperationTask {
    fn eq(&self, other: &FileOperationTask) -> bool {
        self.from == other.from && self.to == other.to
    }
}

impl vstd::std_specs::cmp::PartialEqSpecImpl for FileOperationTask {
    open spec fn obeys_eq_spec() -> bool {
        true
    }

    open spec fn eq_spec(&self, other: &FileOperationTask) -> bool {
        self@ == other@
    }
}

/// One failed operation: the path it concerns and a human-readable reason.
pub struct FailedFileOperation {
    pub file_path: FsPath,
    pub reason: String,
}

impl View for FailedFileOperation {
    type V = FailedV;

    open spec fn view(&self) -> FailedV {
        (self.file_path@, self.reason@)
    }
}

impl FailedFileOperation {
    /// Builds a failure record.
    pub fn new(file_path: FsPath, reason: String) -> (f: FailedFileOperation)
        ensures
            f.file_path == file_path,
            f.reason == reason,
    {
        FailedFileOperation { file_path, reason }
    }
}

impl Clone for FailedFileOperation {
    /// A clone reports the same failure.
    fn clone(&self) -> (r: Self)
        ensures
            r@ == self@,
    {
        FailedFileOperation { file_path: self.file_path.clone(), reason: self.reason.clone() }
    }
}

impl PartialEq for FailedFileOperation {
    fn eq(&self, other: &FailedFileOperation) -> bool {
        self.file_path == other.file_path && self.reason == other.reason
    }
}

impl vstd::std_specs::cmp::PartialEqSpecImpl for FailedFileOperation {
    open spec fn obeys_eq_spec() -> bool {
        true
    }

    open spec fn eq_spec(&self, other: &FailedFileOperation) -> bool {
        self@ == other@
    }
}

/// The outcome of executing a batch: how many renames succeeded and failed.
pub struct FileOperationResult {
    pub successful: usize,
    pub failed: usize,
}

impl FileOperationResult {
    /// Builds a batch result from its counts.
    pub fn new(successful: usize, failed: usize) -> (r: FileOperationResult)
        ensures
            r.successful == successful,
            r.failed == failed,
    {
        FileOperationResult { successful, failed }
    }
}

/// Turning a value into a failure record for a given reason.
pub trait ToFailed {
    /// The path the failure record will carry.
    spec fn failed_path(&self) -> Seq<u8>;

    /// Builds the failure record with this value's path and the reason.
    fn to_failed(&self, reason: &str) -> (r: FailedFileOperation)
        ensures
            r.file_path@ == self.failed_path(),
            r.reason@ == reason@,
    ;
}

impl ToFailed for FileOperationTask {
    open spec fn failed_path(&self) -> Seq<u8> {
        self.from@
    }

    fn to_failed(&self, reason: &str) -> (r: FailedFileOperation) {
        FailedFileOperation::new(self.from.clone(), reason.to_owned())
    }
}

impl ToFailed for FsPath {
    open spec fn failed_path(&self) -> Seq<u8> {
        self@
    }

    fn to_failed(&self, reason: &str) -> (r: FailedFileOperation) {
        FailedFileOperation::new(self.clone(), reason.to_owned())
    }
}

/// The views of a sequence of tasks.
pub open spec fn tasks_view(s: Seq<FileOperationTask>) -> Seq<TaskV> {
    s.map_values(|t: FileOperationTask| t@)
}

/// The views of a sequence of failure records.
pub open spec fn failed_view(s: Seq<FailedFileOperation>) -> Seq<FailedV> {
    s.map_values(|f: FailedFileOperation| f@)
}

/// Taking views commutes with appending one task.
pub proof fn lemma_tasks_view_push(s: Seq<FileOperationTask>, t: FileOperationTask)
    ensures
        tasks_view(s.push(t)) =~= tasks_view(s).push(t@),
{
}

/// Taking views commutes with appending one failure record.
pub proof fn lemma_failed_view_push(s: Seq<FailedFileOperation>, f: FailedFileOperation)
    ensures
        failed_view(s.push(f)) =~= failed_view(s).push(f@),
{
}

/// Compares two tasks in the reporting order.
pub fn task_le(a: &FileOperationTask, b: &FileOperationTask) -> (r: bool)
    ensures
        r == task_order()(a@, b@),
{
    path_le(&a.from, &b.from)
}

/// Compares two failure records in the reporting order.
pub fn failed_le(a: &FailedFileOperation, b: &FailedFileOperation) -> (r: bool)
    ensures
        r == failed_order()(a@, b@),
{
    path_le(&a.file_path, &b.file_path)
}

/// Sorts tasks into the reporting order.
pub fn sort_tasks(tasks: Vec<FileOperationTask>) -> (r: Vec<FileOperationTask>)
    ensures
        tasks_view(r@) == insertion_sort(tasks_view(tasks@), task_order()),
{
    let ghost ord = task_order();
    let mut out: Vec<FileOperationTask> = Vec::new();
    let mut i: usize = 0;
    proof {
        assert(tasks_view(tasks@).take(0) =~= Seq::<TaskV>::empty());
    }
    while i < tasks.len()
        invariant
            i <= tasks@.len(),
            ord == task_order(),
            tasks_view(out@) == insertion_sort(tasks_view(tasks@).take(i as int), ord),
        decreases tasks@.len() - i,
    {
        let x = tasks[i].clone();
        let mut pos: usize = 0;
        while pos < out.len() && task_le(&out[pos], &x)
            invariant
                pos <= out@.len(),
                ord == task_order(),
                forall|k: int| 0 <= k < pos ==> ord(#[trigger] tasks_view(out@)[k], x@),
            decreases out@.len() - pos,
        {
            pos = pos + 1;
        }
        proof {
            lemma_insert_sorted_at(x@, tasks_view(out@), ord, pos as int);
        }
        let ghost out_before = out@;
        out.insert(pos, x);
        proof {
            assert(tasks_view(out@) =~= tasks_view(out_before).insert(pos as int, x@)) by {
                assert(out@.len() == out_before.len() + 1);
                assert forall|k: int| 0 <= k < out@.len() implies tasks_view(out@)[k]
                    == tasks_view(out_before).insert(pos as int, x@)[k] by {
                    if k < pos {
                        assert(out@[k] == out_before[k]);
                    } else if k == pos {
                        assert(out@[k]@ == x@);
                    } else {
                        assert(out@[k] == out_before[k - 1]);
                    }
                }
            }
            let tv = tasks_view(tasks@);
            assert(tv.take(i + 1).drop_last() =~= tv.take(i as int));
            assert(tv.take(i + 1).last() == x@);
            assert(insertion_sort(tv.take(i + 1), ord) == insert_sorted(
                x@,
                insertion_sort(tv.take(i as int), ord),
                ord,
            ));
        }
        i = i + 1;
    }
    proof {
        assert(tasks_view(tasks@).take(tasks@.len() as int) =~= tasks_view(tasks@));
    }
    out
}

/// Sorts failure records into the reporting order.
pub fn sort_failed(records: Vec<FailedFileOperation>) -> (r: Vec<FailedFileOperation>)
    ensures
        failed_view(r@) == insertion_sort(failed_view(records@), failed_order()),
{
    let ghost ord = failed_order();
    let mut out: Vec<FailedFileOperation> = Vec::new();
    let mut i: usize = 0;
    proof {
        assert(failed_view(records@).take(0) =~= Seq::<FailedV>::empty());
    }
    while i < records.len()
        invariant
            i <= records@.len(),
            ord == failed_order(),
            failed_view(out@) == insertion_sort(failed_view(records@).take(i as int), ord),
        decreases records@.len() - i,
    {
        let x = records[i].clone();
        let mut pos: usize = 0;
        while pos < out.len() && failed_le(&out[pos], &x)
            invariant
                pos <= out@.len(),
                ord == failed_order(),
                forall|k: int| 0 <= k < pos ==> ord(#[trigger] failed_view(out@)[k], x@),
            decreases out@.len() - pos,
        {
            pos = pos + 1;
        }
        proof {
            lemma_insert_sorted_at(x@, failed_view(out@), ord, pos as int);
        }
        let ghost out_before = out@;
        out.insert(pos, x);
        proof {
            assert(failed_view(out@) =~= failed_view(out_before).insert(pos as int, x@)) by {
                assert(out@.len() == out_before.len() + 1);
                assert forall|k: int| 0 <= k < out@.len() implies failed_view(out@)[k]
                    == failed_view(out_before).insert(pos as int, x@)[k] by {
                    if k < pos {
                        assert(out@[k] == out_before[k]);
                    } else if k == pos {
                        assert(out@[k]@ == x@);
                    } else {
                        assert(out@[k] == out_before[k - 1]);
                    }
                }
            }
            let rv = failed_view(records@);
            assert(rv.take(i + 1).drop_last() =~= rv.take(i as int));
            assert(rv.take(i + 1).last() == x@);
            assert(insertion_sort(rv.take(i + 1), ord) == insert_sorted(
                x@,
                insertion_sort(rv.take(i as int), ord),
                ord,
            ));
        }
        i = i + 1;
    }
    proof {
        assert(failed_view(records@).take(records@.len() as int) =~= failed_view(records@));
    }
    out
}

} // verus!
