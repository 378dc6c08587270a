use fileops::model::FileOperationTask;
use fileops::path::{filter_by_extension, is_hidden, FsPath};
use fileops::plan::{plan, ToFileTask, Transform};
use fileops::rempref::RemovePrefixTask;

fn p(s: &str) -> FsPath {
    FsPath::from_bytes(s.as_bytes().to_vec())
}

fn bytes(s: &str) -> Vec<u8> {
    s.as_bytes().to_vec()
}

fn task_pair(t: &FileOperationTask) -> (String, String) {
    (
        String::from_utf8(t.from.bytes.clone()).unwrap(),
        String::from_utf8(t.to.bytes.clone()).unwrap(),
    )
}

#[test]
fn file_name_is_suffix_after_last_separator() {
    assert_eq!(p("w/a/x.txt").file_name(), bytes("x.txt"));
    assert_eq!(p("x.txt").file_name(), bytes("x.txt"));
    assert_eq!(p("w/a/").file_name(), bytes(""));
    assert_eq!(p("").file_name(), bytes(""));
}

#[test]
fn extension_is_suffix_after_last_interior_dot() {
    assert_eq!(p("a/foo.tar.gz").extension(), Some(bytes("gz")));
    assert_eq!(p("a/foo.txt").extension(), Some(bytes("txt")));
    assert_eq!(p("a/.gitignore").extension(), None);
    assert_eq!(p("a/noext").extension(), None);
    assert_eq!(p("a/trailing.").extension(), Some(bytes("")));
}

#[test]
fn hidden_files_begin_with_a_dot() {
    assert!(is_hidden(&p("w/.config")));
    assert!(!is_hidden(&p("w/config")));
}

#[test]
fn filter_keeps_everything_without_extensions() {
    let files = vec![p("a/x.txt"), p("b/y.rs"), p("c/z")];
    let kept = filter_by_extension(files, &vec![]);
    assert_eq!(kept.len(), 3);
}

#[test]
fn filter_keeps_only_listed_extensions() {
    let files = vec![p("a/x.txt"), p("b/y.rs"), p("c/z"), p("d/.hidden")];
    let kept = filter_by_extension(files, &vec![bytes("txt"), bytes("rs")]);
    assert_eq!(kept.len(), 2);
    assert!(kept[0] == p("a/x.txt"));
    assert!(kept[1] == p("b/y.rs"));
}

#[test]
fn plan_moves_nested_files_to_the_root() {
    let candidates = vec![p("w/a/x.txt"), p("w/b/x.txt")];
    let transform = Transform::ToRoot { root: p("w") };
    let tasks = plan(&candidates, &transform);
    assert_eq!(tasks.len(), 2);
    assert_eq!(task_pair(&tasks[0]), ("w/a/x.txt".into(), "w/x.txt".into()));
    assert_eq!(task_pair(&tasks[1]), ("w/b/x.txt".into(), "w/x.txt".into()));
}

#[test]
fn plan_gives_distinct_destinations_distinct_tasks() {
    let candidates = vec![p("w/b/summary.txt"), p("w/a/report.txt")];
    let transform = Transform::ToRoot { root: p("w") };
    let tasks = plan(&candidates, &transform);
    assert_eq!(tasks.len(), 2);
    assert_eq!(task_pair(&tasks[0]), ("w/a/report.txt".into(), "w/report.txt".into()));
    assert_eq!(task_pair(&tasks[1]), ("w/b/summary.txt".into(), "w/summary.txt".into()));
    assert!(tasks[0].to != tasks[1].to);
}

#[test]
fn plan_strips_prefixes_keeping_directories() {
    let candidates = vec![p("001_a.txt"), p("002_a.txt")];
    let transform = Transform::StripPrefix { prefix_len: 4 };
    let tasks = plan(&candidates, &transform);
    assert_eq!(tasks.len(), 2);
    assert_eq!(task_pair(&tasks[0]), ("001_a.txt".into(), "a.txt".into()));
    assert_eq!(task_pair(&tasks[1]), ("002_a.txt".into(), "a.txt".into()));
    assert!(tasks[0].to == tasks[1].to);
}

#[test]
fn plan_called_twice_yields_identical_output() {
    let candidates = vec![p("w/b/x.txt"), p("w/a/x.txt"), p("w/c/q.txt")];
    let transform = Transform::ToRoot { root: p("w") };
    let first = plan(&candidates, &transform);
    let second = plan(&candidates, &transform);
    assert!(first == second);
}

#[test]
fn plan_orders_by_component_count_before_lexical_order() {
    let candidates = vec![p("w/a/deep.txt"), p("w/z.txt")];
    let transform = Transform::ToRoot { root: p("w") };
    let tasks = plan(&candidates, &transform);
    assert_eq!(task_pair(&tasks[0]).0, "w/z.txt".to_string());
    assert_eq!(task_pair(&tasks[1]).0, "w/a/deep.txt".to_string());
}

#[test]
fn candidate_lists_plan_like_the_planner() {
    let candidates = vec![p("w/a/x.txt"), p("w/b/y.txt")];
    let transform = Transform::ToRoot { root: p("w") };
    let through_trait = candidates.clone().to_file_tasks(&transform);
    let through_planner = plan(&candidates, &transform);
    assert!(through_trait == through_planner);
}

#[test]
fn remove_prefix_task_strips_inside_directory() {
    let task = RemovePrefixTask::new(4, p("dir/010_report.csv"));
    assert_eq!(task.from.bytes, bytes("dir/010_report.csv"));
    assert_eq!(task.to.bytes, bytes("dir/report.csv"));
}

#[test]
fn remove_prefix_task_may_strip_the_whole_name() {
    let task = RemovePrefixTask::new(5, p("a.txt"));
    assert_eq!(task.to.bytes, bytes(""));
}
