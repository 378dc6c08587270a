use fileops::model::{FailedFileOperation, FileOperationTask};
use fileops::path::FsPath;
use fileops::relative::{is_in_working_dir, relativize_failed, relativize_tasks, Relativize};

fn p(s: &str) -> FsPath {
    FsPath::from_bytes(s.as_bytes().to_vec())
}

fn bytes(s: &str) -> Vec<u8> {
    s.as_bytes().to_vec()
}

#[test]
fn nested_files_lie_in_the_working_dir() {
    assert!(is_in_working_dir(&p("/w"), &p("/w/a/x.txt")));
    assert!(is_in_working_dir(&p("/w"), &p("/w/a/b/x.txt")));
}

#[test]
fn direct_children_do_not_lie_in_the_working_dir() {
    assert!(!is_in_working_dir(&p("/w"), &p("/w/x.txt")));
}

#[test]
fn a_task_relativizes_both_of_its_paths() {
    let task = FileOperationTask::new(p("/w/a/x.txt"), p("/w/x.txt"));
    let rel = task.relativize(&p("/w")).expect("relative paths exist");
    assert_eq!(rel.from.bytes, bytes("a/x.txt"));
    assert_eq!(rel.to.bytes, bytes("x.txt"));
}

#[test]
fn a_failure_record_relativizes_its_path_and_keeps_its_reason() {
    let record = FailedFileOperation::new(p("/w/a/x.txt"), "refused".to_string());
    let rel = record.relativize(&p("/w")).expect("a relative path exists");
    assert_eq!(rel.file_path.bytes, bytes("a/x.txt"));
    assert_eq!(rel.reason, "refused".to_string());
}

#[test]
fn whole_lists_relativize_elementwise() {
    let tasks = vec![
        FileOperationTask::new(p("/w/a/x.txt"), p("/w/x.txt")),
        FileOperationTask::new(p("/w/b/y.txt"), p("/w/y.txt")),
    ];
    let rel = relativize_tasks(&tasks, &p("/w")).expect("relative paths exist");
    assert_eq!(rel.len(), 2);
    assert_eq!(rel[0].from.bytes, bytes("a/x.txt"));
    assert_eq!(rel[1].from.bytes, bytes("b/y.txt"));

    let records = vec![FailedFileOperation::new(p("/w/a/x.txt"), "refused".to_string())];
    let rel_records = relativize_failed(&records, &p("/w")).expect("a relative path exists");
    assert_eq!(rel_records.len(), 1);
    assert_eq!(rel_records[0].file_path.bytes, bytes("a/x.txt"));
}

#[test]
fn paths_outside_the_base_climb_with_parent_steps() {
    assert!(is_in_working_dir(&p("/w"), &p("/q/x.txt")));
    let record = FailedFileOperation::new(p("/q/x.txt"), "refused".to_string());
    let rel = record.relativize(&p("/w")).expect("a relative path exists");
    assert_eq!(rel.file_path.bytes, bytes("../q/x.txt"));
}
