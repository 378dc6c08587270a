//! Relative paths, through the `pathdiff` crate: deciding whether a file
//! lies below the working directory, and rewriting paths relative to it
//! for display.

use vstd::prelude::*;

use crate::model::{FailedFileOperation, FailedV, FileOperationTask, TaskV};
use crate::path::{component_count, FsPath};

verus! {

/// The path of `path` relative to `base`, as `pathdiff::diff_paths`
/// computes it: a function of the two paths alone, `None` where no
/// relative path exists.
pub uninterp spec fn rel_path_of(path: Seq<u8>, base: Seq<u8>) -> Option<Seq<u8>>;

/// Relies on `pathdiff::diff_paths` for the relative path from `base`
/// to `path`; the bytes pass through UTF-8 strings on the way in and
/// out.
#[verifier::external_body]
fn diff_paths_bytes(path: &FsPath, base: &FsPath) -> (r: Option<FsPath>)
    ensures
        match r {
            Option::Some(d) => rel_path_of(path@, base@) == Option::Some(d@),
            Option::None => rel_path_of(path@, base@) is None,
        },
{
    let p = std::path::PathBuf::from(String::from_utf8_lossy(&path.bytes).into_owned());
    let b = std::path::PathBuf::from(String::from_utf8_lossy(&base.bytes).into_owned());
    pathdiff::diff_paths(&p, &b).map(
        |d| FsPath { bytes: d.to_string_lossy().into_owned().into_bytes() },
    )
}

/// Whether a file lies in a directory below the working directory: its
/// relative path there has more than one component. `false` where no
/// relative path exists.
pub open spec fn in_working_dir_spec(working_dir: Seq<u8>, file: Seq<u8>) -> bool {
    match rel_path_of(file, working_dir) {
        Option::Some(d) => component_count(d) != 1,
        Option::None => false,
    }
}

/// Decides whether `file` lies in a directory below `working_dir`.
pub fn is_in_working_dir(working_dir: &FsPath, file: &FsPath) -> (r: bool)
    ensures
        r == in_working_dir_spec(working_dir@, file@),
{
    match diff_paths_bytes(file, working_dir) {
        Option::Some(d) => d.sep_count() != 0,
        Option::None => false,
    }
}

/// Rewriting a value's paths relative to the working directory, for
/// display. `None` where a relative path cannot be computed.
pub trait Relativize: Sized + View {
    /// Whether relativizing succeeds under this working directory.
    spec fn rel_ok(&self, working_dir: Seq<u8>) -> bool;

    /// The view of the relativized value.
    spec fn rel_view(&self, working_dir: Seq<u8>) -> Self::V;

    /// Rewrites the value's paths relative to the working directory.
    fn relativize(&self, working_dir: &FsPath) -> (r: Option<Self>)
        ensures
            r is Some <==> self.rel_ok(working_dir@),
            (match r {
                Option::Some(x) => x@ == self.rel_view(working_dir@),
                Option::None => true,
            }),
    ;
}

impl Relativize for FileOperationTask {
    open spec fn rel_ok(&self, working_dir: Seq<u8>) -> bool {
        rel_path_of(self.from@, working_dir) is Some && rel_path_of(self.to@, working_dir)
            is Some
    }

    open spec fn rel_view(&self, working_dir: Seq<u8>) -> TaskV {
        (rel_path_of(self.from@, working_dir)->0, rel_path_of(self.to@, working_dir)->0)
    }

    fn relativize(&self, working_dir: &FsPath) -> (r: Option<Self>) {
        let f = diff_paths_bytes(&self.from, working_dir);
        let t = diff_paths_bytes(&self.to, working_dir);
        match (f, t) {
            (Option::Some(ff), Option::Some(tt)) => Option::Some(FileOperationTask::new(ff, tt)),
            _ => Option::None,
        }
    }
}

impl Relativize for FailedFileOperation {
    open spec fn rel_ok(&self, working_dir: Seq<u8>) -> bool {
        rel_path_of(self.file_path@, working_dir) is Some
    }

    open spec fn rel_view(&self, working_dir: Seq<u8>) -> FailedV {
        (rel_path_of(self.file_path@, working_dir)->0, self.reason@)
    }

    fn relativize(&self, working_dir: &FsPath) -> (r: Option<Self>) {
        match diff_paths_bytes(&self.file_path, working_dir) {
            Option::Some(p) => Option::Some(FailedFileOperation::new(p, self.reason.clone())),
            Option::None => Option::None,
        }
    }
}

/// Relativizes a whole task list; `None` as soon as one task fails.
pub fn relativize_tasks(tasks: &Vec<FileOperationTask>, working_dir: &FsPath) -> (r: Option<
    Vec<FileOperationTask>,
>)
    ensures
        match r {
            Option::Some(l) => l@.len() == tasks@.len() && (forall|k: int|
                0 <= k < l@.len() ==> (#[trigger] tasks@[k]).rel_ok(working_dir@)) && (forall|
                k: int,
            |
                0 <= k < l@.len() ==> (#[trigger] l@[k])@ == tasks@[k].rel_view(working_dir@)),
            Option::None => exists|k: int|
                0 <= k < tasks@.len() && !(#[trigger] tasks@[k]).rel_ok(working_dir@),
        },
{
    let mut out: Vec<FileOperationTask> = Vec::new();
    let mut i: usize = 0;
    while i < tasks.len()
        invariant
            i <= tasks@.len(),
            out@.len() == i,
            forall|k: int| 0 <= k < i ==> (#[trigger] tasks@[k]).rel_ok(working_dir@),
            forall|k: int|
                0 <= k < i ==> (#[trigger] out@[k])@ == tasks@[k].rel_view(working_dir@),
        decreases tasks@.len() - i,
    {
        match tasks[i].relativize(working_dir) {
            Option::Some(t) => {
                let ghost before = out@;
                out.push(t);
                proof {
                    assert(tasks@[i as int].rel_ok(working_dir@));
                    assert(out@[i as int]@ == tasks@[i as int].rel_view(working_dir@));
                    assert(forall|k: int| 0 <= k < i ==> out@[k] == before[k]);
                }
            },
            Option::None => {
                proof {
                    assert(!tasks@[i as int].rel_ok(working_dir@));
                }
                return Option::None;
            },
        }
        i = i + 1;
    }
    Option::Some(out)
}

/// Relativizes a whole failure-record list; `None` as soon as one fails.
pub fn relativize_failed(records: &Vec<FailedFileOperation>, working_dir: &FsPath) -> (r: Option<
    Vec<FailedFileOperation>,
>)
    ensures
        match r {
            Option::Some(l) => l@.len() == records@.len() && (forall|k: int|
                0 <= k < l@.len() ==> (#[trigger] records@[k]).rel_ok(working_dir@)) && (forall|
                k: int,
            |
                0 <= k < l@.len() ==> (#[trigger] l@[k])@ == records@[k].rel_view(working_dir@)),
            Option::None => exists|k: int|
                0 <= k < records@.len() && !(#[trigger] records@[k]).rel_ok(working_dir@),
        },
{
    let mut out: Vec<FailedFileOperation> = Vec::new();
    let mut i: usize = 0;
    while i < records.len()
        invariant
            i <= records@.len(),
            out@.len() == i,
            forall|k: int| 0 <= k < i ==> (#[trigger] records@[k]).rel_ok(working_dir@),
            forall|k: int|
                0 <= k < i ==> (#[trigger] out@[k])@ == records@[k].rel_view(working_dir@),
        decreases records@.len() - i,
    {
        match records[i].relativize(working_dir) {
            Option::Some(t) => {
                let ghost before = out@;
                out.push(t);
                proof {
                    assert(records@[i as int].rel_ok(working_dir@));
                    assert(out@[i as int]@ == records@[i as int].rel_view(working_dir@));
                    assert(forall|k: int| 0 <= k < i ==> out@[k] == before[k]);
                }
            },
            Option::None => {
                proof {
                    assert(!records@[i as int].rel_ok(working_dir@));
                }
                return Option::None;
            },
        }
        i = i + 1;
    }
    Option::Some(out)
}

} // verus!
