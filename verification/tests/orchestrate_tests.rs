use fileops::denest::{Config, Denest};
use fileops::execute::ExecuteTask;
use fileops::model::FileOperationTask;
use fileops::orchestrate::{decide_run, RunDecision};
use fileops::path::FsPath;

fn p(s: &str) -> FsPath {
    FsPath::from_bytes(s.as_bytes().to_vec())
}

fn bytes(s: &str) -> Vec<u8> {
    s.as_bytes().to_vec()
}

#[test]
fn an_empty_plan_means_nothing_to_do() {
    assert!(decide_run(0, false, false) == RunDecision::NothingToDo);
    assert!(decide_run(0, true, true) == RunDecision::NothingToDo);
}

#[test]
fn a_conflict_always_blocks_execution() {
    assert!(decide_run(3, true, true) == RunDecision::ConflictAbort);
    assert!(decide_run(3, true, false) == RunDecision::ConflictAbort);
}

#[test]
fn without_an_explicit_request_the_run_stays_dry() {
    assert!(decide_run(3, false, false) == RunDecision::DryRun);
}

#[test]
fn a_safe_plan_executes_only_on_request() {
    assert!(decide_run(3, false, true) == RunDecision::Execute);
}

/// An executor that only counts how often it is asked to rename.
struct CountingExecutor {
    calls: usize,
}

impl ExecuteTask for CountingExecutor {
    fn execute_task(&mut self, _task: &FileOperationTask) -> Result<(), String> {
        self.calls += 1;
        Ok(())
    }
}

#[test]
fn a_conflicting_plan_never_reaches_the_executor() {
    let files = vec![p("w/a/x.txt"), p("w/b/x.txt")];
    let mut denest = Denest::new(p("w"), Config::new(vec![], None, false), files);
    let tasks = denest.get_tasks();
    let check = denest.check_before(&vec![]);
    assert!(check.is_some());

    let mut executor = CountingExecutor { calls: 0 };
    if decide_run(tasks.len(), check.is_some(), true) == RunDecision::Execute {
        denest.execute(&mut executor);
    }
    assert_eq!(executor.calls, 0);
}

#[test]
fn dry_runs_repeat_identically_and_change_nothing() {
    let files = vec![p("w/a/x.txt"), p("w/b/x.txt"), p("w/c/q.txt")];
    let roots = vec![p("w/x.txt")];

    let first = Denest::new(p("w"), Config::new(vec![bytes("txt")], None, false), files.clone());
    let second = Denest::new(p("w"), Config::new(vec![bytes("txt")], None, false), files.clone());

    let plan1 = first.get_tasks();
    let plan2 = second.get_tasks();
    assert!(plan1 == plan2);

    let check1 = first.check_before(&roots);
    let check2 = second.check_before(&roots);
    match (check1, check2) {
        (Some(e1), Some(e2)) => {
            let fileops::errors::CheckBeforeError::FilesWouldOverwrite(l1) = e1;
            let fileops::errors::CheckBeforeError::FilesWouldOverwrite(l2) = e2;
            assert!(l1 == l2);
        },
        (None, None) => {},
        _ => panic!("two dry runs disagreed"),
    }

    let decision = decide_run(plan1.len(), true, false);
    assert!(decision != RunDecision::Execute);
}
