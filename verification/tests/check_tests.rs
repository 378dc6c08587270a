use fileops::check::check_tasks;
use fileops::errors::CheckBeforeError;
use fileops::model::{FailedFileOperation, FileOperationTask};
use fileops::path::FsPath;

fn p(s: &str) -> FsPath {
    FsPath::from_bytes(s.as_bytes().to_vec())
}

fn task(from: &str, to: &str) -> FileOperationTask {
    FileOperationTask::new(p(from), p(to))
}

fn records(r: Option<CheckBeforeError>) -> Vec<FailedFileOperation> {
    match r {
        Some(CheckBeforeError::FilesWouldOverwrite(list)) => list,
        None => panic!("expected a conflict"),
    }
}

fn rec_pair(r: &FailedFileOperation) -> (String, String) {
    (
        String::from_utf8(r.file_path.bytes.clone()).unwrap(),
        r.reason.clone(),
    )
}

const NESTED: &str = "would overwrite another moved file";
const OUTER: &str = "would overwrite a file in root";

#[test]
fn two_tasks_sharing_a_destination_are_both_flagged() {
    let tasks = vec![task("w/a/x.txt", "w/x.txt"), task("w/b/x.txt", "w/x.txt")];
    let list = records(check_tasks(&tasks, &vec![], NESTED, OUTER));
    assert_eq!(list.len(), 2);
    assert_eq!(
        rec_pair(&list[0]),
        ("w/a/x.txt".into(), format!("\n- {}", NESTED))
    );
    assert_eq!(
        rec_pair(&list[1]),
        ("w/b/x.txt".into(), format!("\n- {}", NESTED))
    );
}

#[test]
fn conflict_symmetry_holds_regardless_of_order() {
    let tasks = vec![task("w/b/x.txt", "w/x.txt"), task("w/a/x.txt", "w/x.txt")];
    let list = records(check_tasks(&tasks, &vec![], NESTED, OUTER));
    assert_eq!(list.len(), 2);
    assert_eq!(rec_pair(&list[0]).0, "w/a/x.txt".to_string());
    assert_eq!(rec_pair(&list[1]).0, "w/b/x.txt".to_string());
}

#[test]
fn distinct_destinations_raise_no_conflict() {
    let tasks = vec![
        task("w/a/report.txt", "w/report.txt"),
        task("w/b/summary.txt", "w/summary.txt"),
    ];
    assert!(check_tasks(&tasks, &vec![], NESTED, OUTER).is_none());
}

#[test]
fn stripped_prefixes_clashing_are_both_flagged() {
    let tasks = vec![task("001_a.txt", "a.txt"), task("002_a.txt", "a.txt")];
    let list = records(check_tasks(&tasks, &vec![], NESTED, OUTER));
    assert_eq!(list.len(), 2);
    assert_eq!(rec_pair(&list[0]).0, "001_a.txt".to_string());
    assert_eq!(rec_pair(&list[1]).0, "002_a.txt".to_string());
}

#[test]
fn destination_over_a_pre_existing_file_is_an_outer_clash() {
    let tasks = vec![task("001_a.txt", "a.txt")];
    let roots = vec![p("a.txt"), p("001_a.txt")];
    let list = records(check_tasks(&tasks, &roots, NESTED, OUTER));
    assert_eq!(list.len(), 1);
    assert_eq!(
        rec_pair(&list[0]),
        ("001_a.txt".into(), format!("\n- {}", OUTER))
    );
}

#[test]
fn a_lone_task_is_still_checked_against_bystanders() {
    let tasks = vec![task("w/a/x.txt", "w/x.txt")];
    let roots = vec![p("w/x.txt")];
    let list = records(check_tasks(&tasks, &roots, NESTED, OUTER));
    assert_eq!(list.len(), 1);
    assert_eq!(rec_pair(&list[0]).0, "w/a/x.txt".to_string());
}

#[test]
fn a_pre_existing_file_that_moves_away_is_no_bystander() {
    let tasks = vec![task("w/a/x.txt", "w/x.txt"), task("w/x.txt", "w/y.txt")];
    let roots = vec![p("w/x.txt")];
    assert!(check_tasks(&tasks, &roots, NESTED, OUTER).is_none());
}

#[test]
fn both_hazards_are_listed_on_one_record() {
    let tasks = vec![task("w/a/x.txt", "w/x.txt"), task("w/b/x.txt", "w/x.txt")];
    let roots = vec![p("w/x.txt")];
    let list = records(check_tasks(&tasks, &roots, NESTED, OUTER));
    assert_eq!(list.len(), 2);
    assert_eq!(
        rec_pair(&list[0]).1,
        format!("\n- {}\n- {}", NESTED, OUTER)
    );
}

#[test]
fn records_come_sorted_by_component_count_then_lexically() {
    let tasks = vec![
        task("w/b/c/x.txt", "w/x.txt"),
        task("w/a/x.txt", "w/x.txt"),
        task("w/q.txt", "w/x.txt"),
    ];
    let list = records(check_tasks(&tasks, &vec![], NESTED, OUTER));
    assert_eq!(list.len(), 3);
    assert_eq!(rec_pair(&list[0]).0, "w/q.txt".to_string());
    assert_eq!(rec_pair(&list[1]).0, "w/a/x.txt".to_string());
    assert_eq!(rec_pair(&list[2]).0, "w/b/c/x.txt".to_string());
}

#[test]
fn a_task_offending_many_others_is_recorded_once() {
    let tasks = vec![
        task("w/a/x.txt", "w/x.txt"),
        task("w/b/x.txt", "w/x.txt"),
        task("w/c/x.txt", "w/x.txt"),
    ];
    let list = records(check_tasks(&tasks, &vec![], NESTED, OUTER));
    assert_eq!(list.len(), 3);
    let sources: Vec<String> = list.iter().map(|r| rec_pair(r).0).collect();
    assert_eq!(sources, vec!["w/a/x.txt", "w/b/x.txt", "w/c/x.txt"]);
}

#[test]
fn an_empty_batch_raises_no_conflict() {
    let tasks: Vec<FileOperationTask> = vec![];
    let roots = vec![p("w/x.txt")];
    assert!(check_tasks(&tasks, &roots, NESTED, OUTER).is_none());
}
