//! The prefix remover: renames files by stripping a fixed-length prefix
//! from each file name, keeping the directory.

use vstd::prelude::*;

use crate::check::{check_tasks, conflict_records, has_conflict};
use crate::errors::CheckBeforeError;
use crate::execute::{failed_operations, failed_ops_view, run_tasks, ExecuteTask};
use crate::model::{
    failed_view, task_order, tasks_view, FailedFileOperation, FileOperationResult,
    FileOperationTask,
};
use vstd::relations::sorted_by;
use crate::path::{
    byte_seqs, file_name, filter_by_extension, filter_by_extension_spec, is_hidden,
    lemma_filter_element_of, paths_view, FsPath, DOT,
};
use crate::plan::{
    apply_transform, apply_transform_v, plan, plan_spec, Transform, TransformV,
};

verus! {

/// Configuration of a prefix-removal run: how many leading bytes to
/// strip from each file name, which extensions to touch, and whether
/// discovery searched recursively.
pub struct Config {
    pub prefix_length: u8,
    pub extensions: Vec<Vec<u8>>,
    pub recursive: bool,
}

impl Config {
    /// Builds a prefix-removal configuration.
    pub fn new(prefix_length: u8, extensions: Vec<Vec<u8>>, recursive: bool) -> (c: Config)
        ensures
            c.prefix_length == prefix_length,
            c.extensions == extensions,
            c.recursive == recursive,
    {
        Config { prefix_length, extensions, recursive }
    }
}

/// The candidates the remover keeps: files with a matching extension
/// whose names are not hidden (do not begin with a dot).
pub open spec fn strip_candidates(ps: Seq<Seq<u8>>, exts: Seq<Seq<u8>>) -> Seq<Seq<u8>> {
    filter_by_extension_spec(ps, exts).filter(|p: Seq<u8>| file_name(p)[0] != DOT)
}

/// A prefix-removal run: the working directory, the planned renames,
/// and the failures execution recorded.
pub struct Rempref {
    pub working_dir: FsPath,
    pub tasks: Vec<FileOperationTask>,
    pub failed_tasks: Vec<(usize, String)>,
}

impl Rempref {
    /// Builds the remover from the files discovery found: keeps the
    /// files with a matching extension that are not hidden, and plans
    /// one prefix-stripping rename for each.
    ///
    /// Every given file must carry a name; the prefix must fit only in
    /// the names of the candidates the filters keep — a short-named file
    /// that the filters drop is no error.
    pub fn new(working_dir: FsPath, config: Config, files: Vec<FsPath>) -> (r: Rempref)
        requires
            forall|i: int| 0 <= i < files@.len() ==> file_name(#[trigger] files@[i]@).len() > 0,
            forall|i: int|
                0 <= i < strip_candidates(paths_view(files@), byte_seqs(config.extensions@)).len()
                    ==> file_name(
                    #[trigger] strip_candidates(
                        paths_view(files@),
                        byte_seqs(config.extensions@),
                    )[i],
                ).len() >= config.prefix_length,
        ensures
            r.working_dir@ == working_dir@,
            r.failed_tasks@.len() == 0,
            tasks_view(r.tasks@) == plan_spec(
                TransformV::StripPrefix(config.prefix_length),
                strip_candidates(paths_view(files@), byte_seqs(config.extensions@)),
            ),
            r.tasks@.len() == strip_candidates(
                paths_view(files@),
                byte_seqs(config.extensions@),
            ).len(),
            sorted_by(tasks_view(r.tasks@), task_order()),
    {
        let ghost ps = paths_view(files@);
        let ghost exts = byte_seqs(config.extensions@);
        let ghost keep = |p: Seq<u8>| file_name(p)[0] != DOT;
        let by_ext = filter_by_extension(files, &config.extensions);
        proof {
            assert forall|j: int| 0 <= j < ps.len() implies file_name(#[trigger] ps[j]).len()
                > 0 by {
                assert(ps[j] == files@[j]@);
            }
            assert forall|k: int| 0 <= k < by_ext@.len() implies file_name(
                #[trigger] by_ext@[k]@,
            ).len() > 0 by {
                assert(by_ext@[k]@ == paths_view(by_ext@)[k]);
                lemma_filter_element_of_ext(ps, exts, k);
            }
        }
        let mut kept: Vec<FsPath> = Vec::new();
        let mut i: usize = 0;
        proof {
            assert(paths_view(by_ext@).take(0) =~= Seq::<Seq<u8>>::empty());
            assert(paths_view(kept@) =~= paths_view(by_ext@).take(0).filter(keep));
        }
        while i < by_ext.len()
            invariant
                i <= by_ext@.len(),
                keep == (|p: Seq<u8>| file_name(p)[0] != DOT),
                forall|k: int|
                    0 <= k < by_ext@.len() ==> file_name(#[trigger] by_ext@[k]@).len() > 0,
                paths_view(kept@) =~= paths_view(by_ext@).take(i as int).filter(keep),
            decreases by_ext@.len() - i,
        {
            let hidden = is_hidden(&by_ext[i]);
            proof {
                assert(paths_view(by_ext@)[i as int] == by_ext@[i as int]@);
            }
            if !hidden {
                let ghost before = kept@;
                let x = by_ext[i].clone();
                kept.push(x);
                proof {
                    crate::path::lemma_paths_view_push(before, kept@.last());
                }
            }
            proof {
                reveal(Seq::filter);
                let t = paths_view(by_ext@).take(i + 1);
                assert(t.drop_last() =~= paths_view(by_ext@).take(i as int));
                assert(t.last() == by_ext@[i as int]@);
                assert(paths_view(kept@) =~= t.filter(keep));
            }
            i = i + 1;
        }
        proof {
            assert(paths_view(by_ext@).take(by_ext@.len() as int) =~= paths_view(by_ext@));
            assert(paths_view(kept@) =~= strip_candidates(ps, exts));
            assert forall|k: int| 0 <= k < kept@.len() implies file_name(
                #[trigger] kept@[k]@,
            ).len() >= config.prefix_length by {
                assert(kept@[k]@ == paths_view(kept@)[k]);
                assert(file_name(strip_candidates(ps, exts)[k]).len() >= config.prefix_length);
            }
        }
        let mut r = Rempref { working_dir, tasks: Vec::new(), failed_tasks: Vec::new() };
        r.create_tasks(config.prefix_length, kept);
        proof {
            assert(kept@.len() == strip_candidates(ps, exts).len());
        }
        r
    }

    /// Plans one rename per file: the file name loses its first
    /// `prefix_length` bytes, sorted into the reporting order.
    pub fn create_tasks(&mut self, prefix_length: u8, files: Vec<FsPath>)
        requires
            forall|i: int|
                0 <= i < files@.len() ==> file_name(#[trigger] files@[i]@).len() >= prefix_length,
        ensures
            final(self).working_dir == old(self).working_dir,
            final(self).failed_tasks == old(self).failed_tasks,
            tasks_view(final(self).tasks@) == plan_spec(
                TransformV::StripPrefix(prefix_length),
                paths_view(files@),
            ),
            final(self).tasks@.len() == files@.len(),
            sorted_by(tasks_view(final(self).tasks@), task_order()),
    {
        let transform = Transform::StripPrefix { prefix_len: prefix_length };
        self.tasks = plan(&files, &transform);
    }

    /// Checks the planned renames against each other and the
    /// pre-existing root files; `None` exactly when the plan is safe.
    pub fn check_before_execution(&self, root_files: &Vec<FsPath>) -> (r: Option<
        CheckBeforeError,
    >)
        ensures
            ({
                let ts = tasks_view(self.tasks@);
                let roots = paths_view(root_files@);
                match r {
                    Option::Some(e) => has_conflict(ts, roots) && (match e {
                        CheckBeforeError::FilesWouldOverwrite(l) => failed_view(l@)
                            == conflict_records(
                            ts,
                            roots,
                            "would overwrite another renamed file"@,
                            "renaming would overwrite a file in root"@,
                        ),
                    }),
                    Option::None => !has_conflict(ts, roots),
                }
            }),
    {
        check_tasks(
            &self.tasks,
            root_files,
            "would overwrite another renamed file",
            "renaming would overwrite a file in root",
        )
    }

    /// Attempts every planned rename through the given executor,
    /// isolating per-item failures; the counts account for every task.
    pub fn execute<E: ExecuteTask>(&mut self, executor: &mut E) -> (r: FileOperationResult)
        requires
            old(self).failed_tasks@.len() == 0,
        ensures
            final(self).working_dir == old(self).working_dir,
            final(self).tasks == old(self).tasks,
            r.successful + r.failed == old(self).tasks@.len(),
            r.failed == final(self).failed_tasks@.len(),
            r.successful == old(self).tasks@.len() - final(self).failed_tasks@.len(),
            forall|k: int|
                0 <= k < final(self).failed_tasks@.len() ==> (#[trigger] final(self).failed_tasks@[k]).0
                    < old(self).tasks@.len(),
            forall|k1: int, k2: int|
                0 <= k1 < k2 < final(self).failed_tasks@.len() ==> final(self).failed_tasks@[k1].0
                    < final(self).failed_tasks@[k2].0,
    {
        run_tasks(&self.tasks, executor, &mut self.failed_tasks)
    }

    /// The planned renames, in the reporting order.
    pub fn get_tasks(&self) -> (r: Vec<FileOperationTask>)
        ensures
            tasks_view(r@) == tasks_view(self.tasks@),
    {
        crate::denest::clone_tasks(&self.tasks)
    }

    /// The recorded failures: each task index with its error message.
    pub fn get_failed_tasks(&self) -> (r: &Vec<(usize, String)>)
        ensures
            r@ == self.failed_tasks@,
    {
        &self.failed_tasks
    }

    /// The recorded failures as failure records, keyed by source path.
    pub fn get_failed_operations(&self) -> (r: Vec<FailedFileOperation>)
        ensures
            failed_view(r@) == failed_ops_view(self.failed_tasks@, tasks_view(self.tasks@)),
    {
        failed_operations(&self.tasks, &self.failed_tasks)
    }
}

/// What survives the extension filter was among the given files, so its
/// file name is non-empty where every given file's was.
proof fn lemma_filter_element_of_ext(ps: Seq<Seq<u8>>, exts: Seq<Seq<u8>>, k: int)
    requires
        forall|j: int| 0 <= j < ps.len() ==> file_name(#[trigger] ps[j]).len() > 0,
        0 <= k < filter_by_extension_spec(ps, exts).len(),
    ensures
        file_name(filter_by_extension_spec(ps, exts)[k]).len() > 0,
{
    if exts.len() == 0 {
        assert(ps[k] == filter_by_extension_spec(ps, exts)[k]);
    } else {
        lemma_filter_element_of(ps, |p: Seq<u8>| crate::path::ext_matches(p, exts), k);
        let c = filter_by_extension_spec(ps, exts)[k];
        let j = choose|j: int| 0 <= j < ps.len() && ps[j] == c;
        assert(file_name(ps[j]).len() > 0);
    }
}

/// One prefix-stripping rename written down on its own: the source path
/// and the destination with the shortened file name.
pub struct RemovePrefixTask {
    pub from: FsPath,
    pub to: FsPath,
}

impl RemovePrefixTask {
    /// Builds the rename that strips the first `prefix_len` bytes from
    /// the file name of `from`.
    pub fn new(prefix_len: u8, from: FsPath) -> (t: RemovePrefixTask)
        requires
            prefix_len <= file_name(from@).len(),
        ensures
            t.from@ == from@,
            t.to@ == apply_transform_v(TransformV::StripPrefix(prefix_len), from@).1,
    {
        let task = apply_transform(&Transform::StripPrefix { prefix_len }, &from);
        RemovePrefixTask { from: task.from, to: task.to }
    }
}

} // verus!
