//! Error values of the engine.

use vstd::prelude::*;

use crate::model::{FailedFileOperation, FileOperationTask};

verus! {

/// The failure of the pre-execution check: executing the batch would
/// silently overwrite files. Carries one record per offending task,
/// sorted into the reporting order.
pub enum CheckBeforeError {
    FilesWouldOverwrite(Vec<FailedFileOperation>),
}

/// A batch refused as a whole: the tasks whose destinations would
/// overwrite existing files.
pub enum FileOperationError {
    FilesWouldOverwrite(Vec<FileOperationTask>),
}

} // verus!
