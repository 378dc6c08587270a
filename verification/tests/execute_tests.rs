use fileops::execute::{failed_operations, run_tasks, ExecuteTask};
use fileops::model::{FileOperationResult, FileOperationTask};
use fileops::orchestrate::{summarize, SummaryKind};
use fileops::path::FsPath;
use fileops::rempref::{Config, Rempref};

fn p(s: &str) -> FsPath {
    FsPath::from_bytes(s.as_bytes().to_vec())
}

fn task(from: &str, to: &str) -> FileOperationTask {
    FileOperationTask::new(p(from), p(to))
}

/// An executor that succeeds on every task.
struct AlwaysOk;

impl ExecuteTask for AlwaysOk {
    fn execute_task(&mut self, _task: &FileOperationTask) -> Result<(), String> {
        Ok(())
    }
}

/// An executor that fails on chosen call positions with a fixed message.
struct DenyAt {
    deny: Vec<usize>,
    calls: usize,
    message: String,
}

impl ExecuteTask for DenyAt {
    fn execute_task(&mut self, _task: &FileOperationTask) -> Result<(), String> {
        let position = self.calls;
        self.calls += 1;
        if self.deny.contains(&position) {
            Err(self.message.clone())
        } else {
            Ok(())
        }
    }
}

#[test]
fn a_clean_batch_succeeds_in_full() {
    let tasks = vec![task("w/a/x.txt", "w/x.txt"), task("w/b/y.txt", "w/y.txt")];
    let mut failed: Vec<(usize, String)> = vec![];
    let result = run_tasks(&tasks, &mut AlwaysOk, &mut failed);
    assert_eq!(result.successful, 2);
    assert_eq!(result.failed, 0);
    assert!(failed.is_empty());
    assert!(summarize(&result) == SummaryKind::AllSucceeded);
}

#[test]
fn counts_always_cover_every_task() {
    let tasks = vec![
        task("w/a/x.txt", "w/x.txt"),
        task("w/b/y.txt", "w/y.txt"),
        task("w/c/z.txt", "w/z.txt"),
    ];
    for deny in [vec![], vec![0], vec![1, 2], vec![0, 1, 2]] {
        let mut executor = DenyAt { deny, calls: 0, message: "refused".into() };
        let mut failed: Vec<(usize, String)> = vec![];
        let result = run_tasks(&tasks, &mut executor, &mut failed);
        assert_eq!(result.successful + result.failed, tasks.len());
        assert_eq!(result.failed, failed.len());
    }
}

#[test]
fn one_denied_rename_never_stops_the_rest() {
    let tasks = vec![
        task("w/a/x.txt", "w/x.txt"),
        task("w/b/y.txt", "w/y.txt"),
        task("w/c/z.txt", "w/z.txt"),
    ];
    let mut executor = DenyAt { deny: vec![1], calls: 0, message: "permission denied".into() };
    let mut failed: Vec<(usize, String)> = vec![];
    let result = run_tasks(&tasks, &mut executor, &mut failed);
    assert_eq!(result.successful, 2);
    assert_eq!(result.failed, 1);
    assert_eq!(executor.calls, 3);
    let report = failed_operations(&tasks, &failed);
    assert_eq!(report.len(), 1);
    assert_eq!(report[0].file_path.bytes, b"w/b/y.txt".to_vec());
    assert_eq!(report[0].reason, "permission denied".to_string());
    assert!(summarize(&result) == SummaryKind::Partial);
}

#[test]
fn a_fully_denied_batch_reports_every_task() {
    let tasks = vec![task("w/a/x.txt", "w/x.txt"), task("w/b/y.txt", "w/y.txt")];
    let mut executor = DenyAt { deny: vec![0, 1], calls: 0, message: "read-only".into() };
    let mut failed: Vec<(usize, String)> = vec![];
    let result = run_tasks(&tasks, &mut executor, &mut failed);
    assert_eq!(result.successful, 0);
    assert_eq!(result.failed, 2);
    assert!(summarize(&result) == SummaryKind::AllFailed);
    let report = failed_operations(&tasks, &failed);
    assert_eq!(report.len(), 2);
    assert_eq!(report[0].file_path.bytes, b"w/a/x.txt".to_vec());
    assert_eq!(report[1].file_path.bytes, b"w/b/y.txt".to_vec());
}

#[test]
fn a_single_clean_rename_executes_alone() {
    let config = Config::new(4, vec![], false);
    let files = vec![p("010_report.csv")];
    let mut rempref = Rempref::new(p("w"), config, files);
    let tasks = rempref.get_tasks();
    assert_eq!(tasks.len(), 1);
    assert_eq!(tasks[0].to.bytes, b"report.csv".to_vec());
    let result = rempref.execute(&mut AlwaysOk);
    assert_eq!(result.successful, 1);
    assert_eq!(result.failed, 0);
    assert!(rempref.get_failed_tasks().is_empty());
    assert!(rempref.get_failed_operations().is_empty());
}

#[test]
fn short_names_dropped_by_the_filters_are_no_error() {
    let config = Config::new(4, vec![b"txt".to_vec()], false);
    let files = vec![p("001_a.txt"), p("a.b")];
    let rempref = Rempref::new(p("w"), config, files);
    let tasks = rempref.get_tasks();
    assert_eq!(tasks.len(), 1);
    assert_eq!(tasks[0].to.bytes, b"a.txt".to_vec());

    let config = Config::new(4, vec![], false);
    let files = vec![p(".a"), p("001_a.txt")];
    let rempref = Rempref::new(p("w"), config, files);
    assert_eq!(rempref.get_tasks().len(), 1);
}

#[test]
fn summary_kinds_follow_the_counts() {
    assert!(summarize(&FileOperationResult::new(2, 0)) == SummaryKind::AllSucceeded);
    assert!(summarize(&FileOperationResult::new(0, 0)) == SummaryKind::AllSucceeded);
    assert!(summarize(&FileOperationResult::new(0, 3)) == SummaryKind::AllFailed);
    assert!(summarize(&FileOperationResult::new(1, 2)) == SummaryKind::Partial);
}
