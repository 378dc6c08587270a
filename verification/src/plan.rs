//! The task planner: applies a transform to every candidate path and
//! sorts the planned tasks into the deterministic reporting order.
//!
//! Planning never fails and touches no filesystem state; its output is a
//! function of the candidate paths and the transform alone.

use vstd::prelude::*;
use vstd::relations::sorted_by;

use crate::model::{
    lemma_task_order_properties, task_order, tasks_view, FileOperationTask, TaskV,
};
use crate::order::{
    insertion_sort, lemma_insertion_sort_multiset, lemma_insertion_sort_sorted,
};
use crate::path::{
    append_bytes, file_name, lemma_file_name_len, paths_view, FsPath, SEP,
};
use vstd::slice::{slice_subrange, slice_to_vec};

verus! {

/// A per-path rule computing each planned destination.
pub enum Transform {
    /// Move the file to the root directory, keeping its file name.
    ToRoot { root: FsPath },
    /// Strip a fixed-length prefix from the file name, keeping its directory.
    StripPrefix { prefix_len: u8 },
}

/// The view of a transform.
pub enum TransformV {
    ToRoot(Seq<u8>),
    StripPrefix(u8),
}

impl View for Transform {
    type V = TransformV;

    open spec fn view(&self) -> TransformV {
        match self {
            Transform::ToRoot { root } => TransformV::ToRoot(root@),
            Transform::StripPrefix { prefix_len } => TransformV::StripPrefix(*prefix_len),
        }
    }
}

/// Whether a path is a valid input for a transform: it must have a file
/// name, and a stripped prefix must fit inside that file name.
pub open spec fn transform_ok(t: TransformV, p: Seq<u8>) -> bool {
    match t {
        TransformV::ToRoot(_) => file_name(p).len() > 0,
        TransformV::StripPrefix(n) => n <= file_name(p).len(),
    }
}

/// The task a transform plans for one path.
pub open spec fn apply_transform_v(t: TransformV, p: Seq<u8>) -> TaskV {
    match t {
        TransformV::ToRoot(root) => (p, root + seq![SEP] + file_name(p)),
        TransformV::StripPrefix(n) => (
            p,
            p.take(p.len() - file_name(p).len()) + file_name(p).skip(n as int),
        ),
    }
}

/// The tasks a transform plans for a sequence of paths, in input order.
pub open spec fn mapped_tasks(t: TransformV, ps: Seq<Seq<u8>>) -> Seq<TaskV> {
    ps.map_values(|p: Seq<u8>| apply_transform_v(t, p))
}

/// The plan for a sequence of candidate paths: their tasks, sorted into
/// the reporting order.
pub open spec fn plan_spec(t: TransformV, ps: Seq<Seq<u8>>) -> Seq<TaskV> {
    insertion_sort(mapped_tasks(t, ps), task_order())
}

/// Plans the task for one candidate path.
pub fn apply_transform(transform: &Transform, p: &FsPath) -> (t: FileOperationTask)
    requires
        transform_ok(transform@, p@),
    ensures
        t@ == apply_transform_v(transform@, p@),
{
    match transform {
        Transform::ToRoot { root } => {
            let mut to_bytes = slice_to_vec(root.bytes.as_slice());
            to_bytes.push(SEP);
            let fname = p.file_name();
            append_bytes(&mut to_bytes, fname.as_slice());
            proof {
                assert(to_bytes@ =~= root@ + seq![SEP] + file_name(p@));
            }
            FileOperationTask::new(p.clone(), FsPath::from_bytes(to_bytes))
        },
        Transform::StripPrefix { prefix_len } => {
            let fname = p.file_name();
            proof {
                lemma_file_name_len(p@);
            }
            let keep = p.bytes.len() - fname.len();
            let mut to_bytes = slice_to_vec(slice_subrange(p.bytes.as_slice(), 0, keep));
            let pl = *prefix_len as usize;
            append_bytes(&mut to_bytes, slice_subrange(fname.as_slice(), pl, fname.len()));
            proof {
                assert(p@.subrange(0, keep as int) =~= p@.take(keep as int));
                assert(to_bytes@ =~= p@.take(p@.len() - file_name(p@).len()) + file_name(
                    p@,
                ).skip(*prefix_len as int));
            }
            FileOperationTask::new(p.clone(), FsPath::from_bytes(to_bytes))
        },
    }
}

/// Plans the whole batch: one task per candidate, sorted for reporting.
///
/// The result is a function of the candidates and the transform alone,
/// sorted by the reporting order, and holds exactly the tasks of the
/// candidates.
pub fn plan(candidates: &Vec<FsPath>, transform: &Transform) -> (r: Vec<FileOperationTask>)
    requires
        forall|i: int|
            0 <= i < candidates@.len() ==> transform_ok(transform@, #[trigger] candidates@[i]@),
    ensures
        r@.len() == candidates@.len(),
        tasks_view(r@) == plan_spec(transform@, paths_view(candidates@)),
        sorted_by(tasks_view(r@), task_order()),
        tasks_view(r@).to_multiset() == mapped_tasks(
            transform@,
            paths_view(candidates@),
        ).to_multiset(),
{
    let ghost mapped_v = mapped_tasks(transform@, paths_view(candidates@));
    let mut mapped: Vec<FileOperationTask> = Vec::new();
    let mut i: usize = 0;
    while i < candidates.len()
        invariant
            i <= candidates@.len(),
            mapped_v == mapped_tasks(transform@, paths_view(candidates@)),
            forall|k: int|
                0 <= k < candidates@.len() ==> transform_ok(
                    transform@,
                    #[trigger] candidates@[k]@,
                ),
            tasks_view(mapped@) =~= mapped_v.take(i as int),
        decreases candidates@.len() - i,
    {
        let t = apply_transform(transform, &candidates[i]);
        let ghost before = mapped@;
        mapped.push(t);
        proof {
            crate::model::lemma_tasks_view_push(before, mapped@.last());
            assert(paths_view(candidates@)[i as int] == candidates@[i as int]@);
            assert(mapped_v[i as int] == apply_transform_v(transform@, candidates@[i as int]@));
            assert(tasks_view(mapped@) =~= mapped_v.take(i + 1));
        }
        i = i + 1;
    }
    proof {
        assert(mapped_v.take(candidates@.len() as int) =~= mapped_v);
    }
    let r = crate::model::sort_tasks(mapped);
    proof {
        broadcast use vstd::seq_lib::group_to_multiset_ensures;

        lemma_task_order_properties();
        lemma_insertion_sort_sorted(mapped_v, task_order());
        lemma_insertion_sort_multiset(mapped_v, task_order());
        assert(tasks_view(r@).len() == tasks_view(r@).to_multiset().len());
        assert(mapped_v.len() == mapped_v.to_multiset().len());
    }
    r
}

/// Turning a list of candidate paths into planned tasks.
pub trait ToFileTask: Sized {
    /// The views of the candidate paths.
    spec fn candidate_views(&self) -> Seq<Seq<u8>>;

    /// Plans one task per candidate, sorted into the reporting order.
    fn to_file_tasks(self, transform: &Transform) -> (r: Vec<FileOperationTask>)
        requires
            forall|i: int|
                0 <= i < self.candidate_views().len() ==> transform_ok(
                    transform@,
                    #[trigger] self.candidate_views()[i],
                ),
        ensures
            tasks_view(r@) == plan_spec(transform@, self.candidate_views()),
    ;
}

impl ToFileTask for Vec<FsPath> {
    open spec fn candidate_views(&self) -> Seq<Seq<u8>> {
        paths_view(self@)
    }

    fn to_file_tasks(self, transform: &Transform) -> (r: Vec<FileOperationTask>) {
        proof {
            assert forall|i: int| 0 <= i < self@.len() implies transform_ok(
                transform@,
                #[trigger] self@[i]@,
            ) by {
                assert(self@[i]@ == self.candidate_views()[i]);
            }
        }
        plan(&self, transform)
    }
}

/// Planning is deterministic: two plans of the same candidates under the
/// same transform are identical, element for element.
pub proof fn lemma_plan_deterministic(
    t: TransformV,
    ps: Seq<Seq<u8>>,
    v1: Seq<TaskV>,
    v2: Seq<TaskV>,
)
    requires
        v1 == plan_spec(t, ps),
        v2 == plan_spec(t, ps),
    ensures
        v1 == v2,
{
}

} // verus!
