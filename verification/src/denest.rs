//! The nested-file hoister: moves files from subdirectories up into the
//! working directory, keeping their file names.

use vstd::prelude::*;

use crate::check::{check_tasks, conflict_records, has_conflict};
use crate::errors::CheckBeforeError;
use crate::execute::{failed_operations, failed_ops_view, run_tasks, ExecuteTask};
use crate::model::{
    failed_view, task_order, tasks_view, FailedFileOperation, FileOperationResult,
    FileOperationTask,
};
use vstd::relations::sorted_by;
use crate::path::{
    byte_seqs, file_name, filter_by_extension, filter_by_extension_spec, lemma_filter_element_of,
    paths_view, FsPath,
};
use crate::plan::{plan, plan_spec, Transform, TransformV};
use crate::relative::{in_working_dir_spec, is_in_working_dir};

verus! {

/// Configuration of a hoist run: which extensions to move, how deep
/// discovery searched, and whether to clean up emptied directories.
pub struct Config {
    pub extensions: Vec<Vec<u8>>,
    pub depth: Option<u8>,
    pub cleanup: bool,
}

impl Config {
    /// Builds a hoist configuration.
    pub fn new(extensions: Vec<Vec<u8>>, depth: Option<u8>, cleanup: bool) -> (c: Config)
        ensures
            c.extensions == extensions,
            c.depth == depth,
            c.cleanup == cleanup,
    {
        Config { extensions, depth, cleanup }
    }
}

/// The candidates the hoister keeps: files with a matching extension
/// that lie in a directory below the working directory.
pub open spec fn hoist_candidates(
    ps: Seq<Seq<u8>>,
    exts: Seq<Seq<u8>>,
    working_dir: Seq<u8>,
) -> Seq<Seq<u8>> {
    filter_by_extension_spec(ps, exts).filter(|p: Seq<u8>| in_working_dir_spec(working_dir, p))
}

/// Candidates keep their file names: what survives the two filters was
/// among the given files.
proof fn lemma_hoist_candidates_named(ps: Seq<Seq<u8>>, exts: Seq<Seq<u8>>, working_dir: Seq<u8>)
    requires
        forall|j: int| 0 <= j < ps.len() ==> file_name(#[trigger] ps[j]).len() > 0,
    ensures
        forall|i: int|
            0 <= i < hoist_candidates(ps, exts, working_dir).len() ==> file_name(
                #[trigger] hoist_candidates(ps, exts, working_dir)[i],
            ).len() > 0,
{
    let fbe = filter_by_extension_spec(ps, exts);
    let keep = |p: Seq<u8>| in_working_dir_spec(working_dir, p);
    assert forall|i: int| 0 <= i < hoist_candidates(ps, exts, working_dir).len() implies file_name(
        #[trigger] hoist_candidates(ps, exts, working_dir)[i],
    ).len() > 0 by {
        let c = hoist_candidates(ps, exts, working_dir)[i];
        lemma_filter_element_of(fbe, keep, i);
        let m = choose|m: int| 0 <= m < fbe.len() && fbe[m] == c;
        if exts.len() == 0 {
            assert(ps[m] == c);
        } else {
            lemma_filter_element_of(ps, |p: Seq<u8>| crate::path::ext_matches(p, exts), m);
            let j = choose|j: int| 0 <= j < ps.len() && ps[j] == c;
            assert(file_name(ps[j]).len() > 0);
        }
    }
}

/// A hoist run: the working directory, the planned moves, and the
/// failures execution recorded.
pub struct Denest {
    pub working_dir: FsPath,
    pub tasks: Vec<FileOperationTask>,
    pub failed_tasks: Vec<(usize, String)>,
    pub cleanup: bool,
}

impl Denest {
    /// Builds the hoister from the files discovery found: keeps the
    /// files with a matching extension that lie below the working
    /// directory, and plans one move to the root for each.
    pub fn new(working_dir: FsPath, config: Config, files: Vec<FsPath>) -> (d: Denest)
        requires
            forall|i: int| 0 <= i < files@.len() ==> file_name(#[trigger] files@[i]@).len() > 0,
        ensures
            d.working_dir@ == working_dir@,
            d.cleanup == config.cleanup,
            d.failed_tasks@.len() == 0,
            tasks_view(d.tasks@) == plan_spec(
                TransformV::ToRoot(working_dir@),
                hoist_candidates(paths_view(files@), byte_seqs(config.extensions@), working_dir@),
            ),
            d.tasks@.len() == hoist_candidates(
                paths_view(files@),
                byte_seqs(config.extensions@),
                working_dir@,
            ).len(),
            sorted_by(tasks_view(d.tasks@), task_order()),
    {
        let ghost ps = paths_view(files@);
        let ghost exts = byte_seqs(config.extensions@);
        let ghost keep = |p: Seq<u8>| in_working_dir_spec(working_dir@, p);
        let by_ext = filter_by_extension(files, &config.extensions);
        let mut kept: Vec<FsPath> = Vec::new();
        let mut i: usize = 0;
        proof {
            assert(paths_view(by_ext@).take(0) =~= Seq::<Seq<u8>>::empty());
            assert(paths_view(kept@) =~= paths_view(by_ext@).take(0).filter(keep));
        }
        while i < by_ext.len()
            invariant
                i <= by_ext@.len(),
                keep == (|p: Seq<u8>| in_working_dir_spec(working_dir@, p)),
                paths_view(kept@) =~= paths_view(by_ext@).take(i as int).filter(keep),
            decreases by_ext@.len() - i,
        {
            let inside = is_in_working_dir(&working_dir, &by_ext[i]);
            proof {
                assert(paths_view(by_ext@)[i as int] == by_ext@[i as int]@);
            }
            if inside {
                let ghost before = kept@;
                let x = by_ext[i].clone();
                kept.push(x);
                proof {
                    crate::path::lemma_paths_view_push(before, kept@.last());
                }
            }
            proof {
                reveal(Seq::filter);
                let t = paths_view(by_ext@).take(i + 1);
                assert(t.drop_last() =~= paths_view(by_ext@).take(i as int));
                assert(t.last() == by_ext@[i as int]@);
                assert(paths_view(kept@) =~= t.filter(keep));
            }
            i = i + 1;
        }
        proof {
            assert(paths_view(by_ext@).take(by_ext@.len() as int) =~= paths_view(by_ext@));
            assert(paths_view(kept@) =~= hoist_candidates(ps, exts, working_dir@));
            assert forall|j: int| 0 <= j < ps.len() implies file_name(#[trigger] ps[j]).len()
                > 0 by {
                assert(ps[j] == files@[j]@);
            }
            lemma_hoist_candidates_named(ps, exts, working_dir@);
            assert forall|k: int| 0 <= k < kept@.len() implies file_name(
                #[trigger] kept@[k]@,
            ).len() > 0 by {
                assert(kept@[k]@ == paths_view(kept@)[k]);
                assert(file_name(hoist_candidates(ps, exts, working_dir@)[k]).len() > 0);
            }
            assert(kept@.len() == hoist_candidates(ps, exts, working_dir@).len());
        }
        let mut d = Denest {
            working_dir,
            tasks: Vec::new(),
            failed_tasks: Vec::new(),
            cleanup: config.cleanup,
        };
        d.create_tasks(kept);
        d
    }

    /// Plans one move per file: to the working directory, keeping the
    /// file name, sorted into the reporting order.
    pub fn create_tasks(&mut self, files: Vec<FsPath>)
        requires
            forall|i: int| 0 <= i < files@.len() ==> file_name(#[trigger] files@[i]@).len() > 0,
        ensures
            final(self).working_dir == old(self).working_dir,
            final(self).failed_tasks == old(self).failed_tasks,
            final(self).cleanup == old(self).cleanup,
            tasks_view(final(self).tasks@) == plan_spec(
                TransformV::ToRoot(old(self).working_dir@),
                paths_view(files@),
            ),
            final(self).tasks@.len() == files@.len(),
            sorted_by(tasks_view(final(self).tasks@), task_order()),
    {
        let root = self.working_dir.clone();
        let transform = Transform::ToRoot { root };
        self.tasks = plan(&files, &transform);
    }

    /// Checks the planned moves against each other and the pre-existing
    /// root files; `None` exactly when the plan is safe to execute.
    pub fn check_before(&self, root_files: &Vec<FsPath>) -> (r: Option<CheckBeforeError>)
        ensures
            ({
                let ts = tasks_view(self.tasks@);
                let roots = paths_view(root_files@);
                match r {
                    Option::Some(e) => has_conflict(ts, roots) && (match e {
                        CheckBeforeError::FilesWouldOverwrite(l) => failed_view(l@)
                            == conflict_records(
                            ts,
                            roots,
                            "would overwrite another moved file"@,
                            "would overwrite a file in root"@,
                        ),
                    }),
                    Option::None => !has_conflict(ts, roots),
                }
            }),
    {
        check_tasks(
            &self.tasks,
            root_files,
            "would overwrite another moved file",
            "would overwrite a file in root",
        )
    }

    /// Attempts every planned move through the given executor, isolating
    /// per-item failures; the counts account for every task.
    pub fn execute<E: ExecuteTask>(&mut self, executor: &mut E) -> (r: FileOperationResult)
        requires
            old(self).failed_tasks@.len() == 0,
        ensures
            final(self).working_dir == old(self).working_dir,
            final(self).tasks == old(self).tasks,
            final(self).cleanup == old(self).cleanup,
            r.successful + r.failed == old(self).tasks@.len(),
            r.failed == final(self).failed_tasks@.len(),
            r.successful == old(self).tasks@.len() - final(self).failed_tasks@.len(),
            forall|k: int|
                0 <= k < final(self).failed_tasks@.len() ==> (#[trigger] final(self).failed_tasks@[k]).0
                    < old(self).tasks@.len(),
            forall|k1: int, k2: int|
                0 <= k1 < k2 < final(self).failed_tasks@.len() ==> final(self).failed_tasks@[k1].0
                    < final(self).failed_tasks@[k2].0,
    {
        run_tasks(&self.tasks, executor, &mut self.failed_tasks)
    }

    /// The planned moves, in the reporting order.
    pub fn get_tasks(&self) -> (r: Vec<FileOperationTask>)
        ensures
            tasks_view(r@) == tasks_view(self.tasks@),
    {
        clone_tasks(&self.tasks)
    }

    /// The recorded failures: each task index with its error message.
    pub fn get_failed_tasks(&self) -> (r: &Vec<(usize, String)>)
        ensures
            r@ == self.failed_tasks@,
    {
        &self.failed_tasks
    }

    /// The recorded failures as failure records, keyed by source path.
    pub fn get_failed_operations(&self) -> (r: Vec<FailedFileOperation>)
        ensures
            failed_view(r@) == failed_ops_view(self.failed_tasks@, tasks_view(self.tasks@)),
    {
        failed_operations(&self.tasks, &self.failed_tasks)
    }
}

/// Copies a task list, keeping every task's paths.
pub fn clone_tasks(tasks: &Vec<FileOperationTask>) -> (r: Vec<FileOperationTask>)
    ensures
        tasks_view(r@) == tasks_view(tasks@),
{
    let mut out: Vec<FileOperationTask> = Vec::new();
    let mut i: usize = 0;
    while i < tasks.len()
        invariant
            i <= tasks@.len(),
            out@.len() == i,
            forall|k: int| 0 <= k < i ==> (#[trigger] out@[k])@ == tasks@[k]@,
        decreases tasks@.len() - i,
    {
        let x = tasks[i].clone();
        out.push(x);
        i = i + 1;
    }
    proof {
        assert(tasks_view(out@) =~= tasks_view(tasks@));
    }
    out
}

} // verus!
