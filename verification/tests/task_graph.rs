use erlangrt::agent_rt::task_graph::{TaskGraph, TaskStatus};
use erlangrt::json::Json;

fn json(text: &str) -> Json {
    Json::parse(text).unwrap()
}

#[test]
fn test_no_deps_all_ready() {
    let mut graph = TaskGraph::new();
    graph
        .add_tasks(vec![
            json(r#"{"task_id": "a", "prompt": "do a"}"#),
            json(r#"{"task_id": "b", "prompt": "do b"}"#),
        ])
        .unwrap();
    let ready = graph.ready_tasks();
    assert_eq!(ready.len(), 2);
}

#[test]
fn test_linear_deps() {
    let mut graph = TaskGraph::new();
    graph
        .add_tasks(vec![
            json(r#"{"task_id": "build", "prompt": "build it"}"#),
            json(r#"{"task_id": "test", "prompt": "test it", "depends_on": ["build"]}"#),
            json(r#"{"task_id": "deploy", "prompt": "deploy it", "depends_on": ["test"]}"#),
        ])
        .unwrap();

    assert_eq!(graph.ready_tasks().len(), 1);
    assert_eq!(graph.ready_tasks()[0].get_str("task_id").unwrap(), "build");

    graph.mark_running("build");
    assert_eq!(graph.ready_tasks().len(), 0);

    graph.mark_completed("build");
    assert_eq!(graph.ready_tasks().len(), 1);
    assert_eq!(graph.ready_tasks()[0].get_str("task_id").unwrap(), "test");

    graph.mark_running("test");
    graph.mark_completed("test");
    assert_eq!(graph.ready_tasks().len(), 1);
    assert_eq!(graph.ready_tasks()[0].get_str("task_id").unwrap(), "deploy");
}

#[test]
fn test_diamond_deps() {
    let mut graph = TaskGraph::new();
    graph
        .add_tasks(vec![
            json(r#"{"task_id": "start"}"#),
            json(r#"{"task_id": "left", "depends_on": ["start"]}"#),
            json(r#"{"task_id": "right", "depends_on": ["start"]}"#),
            json(r#"{"task_id": "merge", "depends_on": ["left", "right"]}"#),
        ])
        .unwrap();

    assert_eq!(graph.ready_tasks().len(), 1);
    graph.mark_running("start");
    graph.mark_completed("start");
    assert_eq!(graph.ready_tasks().len(), 2);

    graph.mark_running("left");
    graph.mark_completed("left");
    assert_eq!(graph.ready_tasks().len(), 0);

    graph.mark_running("right");
    graph.mark_completed("right");
    assert_eq!(graph.ready_tasks().len(), 1);
}

#[test]
fn test_cycle_detection() {
    let mut graph = TaskGraph::new();
    let result = graph.add_tasks(vec![
        json(r#"{"task_id": "a", "depends_on": ["b"]}"#),
        json(r#"{"task_id": "b", "depends_on": ["a"]}"#),
    ]);
    assert!(result.is_err());
}

#[test]
fn test_fail_dependents_cascade() {
    let mut graph = TaskGraph::new();
    graph
        .add_tasks(vec![
            json(r#"{"task_id": "a"}"#),
            json(r#"{"task_id": "b", "depends_on": ["a"]}"#),
            json(r#"{"task_id": "c", "depends_on": ["b"]}"#),
        ])
        .unwrap();

    graph.mark_running("a");
    graph.mark_failed("a");
    graph.fail_dependents("a");

    assert_eq!(graph.task_status("b"), Some(&TaskStatus::Skipped));
    assert_eq!(graph.task_status("c"), Some(&TaskStatus::Skipped));
}

#[test]
fn test_is_complete() {
    let mut graph = TaskGraph::new();
    graph
        .add_tasks(vec![
            json(r#"{"task_id": "x"}"#),
            json(r#"{"task_id": "y"}"#),
        ])
        .unwrap();
    assert!(!graph.is_complete());

    graph.mark_running("x");
    graph.mark_completed("x");
    assert!(!graph.is_complete());

    graph.mark_running("y");
    graph.mark_completed("y");
    assert!(graph.is_complete());
}

#[test]
fn test_is_complete_with_failures() {
    let mut graph = TaskGraph::new();
    graph
        .add_tasks(vec![
            json(r#"{"task_id": "ok"}"#),
            json(r#"{"task_id": "fail"}"#),
        ])
        .unwrap();

    graph.mark_running("ok");
    graph.mark_completed("ok");
    graph.mark_running("fail");
    graph.mark_failed("fail");
    assert!(graph.is_complete());
}

#[test]
fn test_backward_compat_no_deps() {
    let mut graph = TaskGraph::new();
    graph
        .add_tasks(vec![
            json(r#"{"task_id": "t1", "prompt": "first"}"#),
            json(r#"{"task_id": "t2", "prompt": "second"}"#),
            json(r#"{"task_id": "t3", "prompt": "third"}"#),
        ])
        .unwrap();
    assert_eq!(graph.ready_tasks().len(), 3);
}

#[test]
fn refused_tasks_leave_the_graph_as_it_was() {
    let mut graph = TaskGraph::new();
    graph.add_tasks(vec![json(r#"{"task_id": "a"}"#)]).unwrap();
    let e = graph
        .add_tasks(vec![
            json(r#"{"task_id": "b", "depends_on": ["c"]}"#),
            json(r#"{"task_id": "c", "depends_on": ["b"]}"#),
        ])
        .unwrap_err();
    assert!(!e.is_empty());
    graph.mark_running("a");
    graph.mark_completed("a");
    assert_eq!(graph.task_status("a"), Some(&TaskStatus::Completed));
}

#[test]
fn tasks_get_ready_in_their_turn() {
    let mut graph = TaskGraph::new();
    graph
        .add_tasks(vec![
            json(r#"{"task_id": "a"}"#),
            json(r#"{"task_id": "b"}"#),
            json(r#"{"task_id": "c", "depends_on": ["a", "b"]}"#),
            json(r#"{"task_id": "d", "depends_on": ["c"]}"#),
        ])
        .unwrap();
    assert_eq!(graph.pending_count(), 2);
    graph.mark_completed("a");
    assert_eq!(graph.task_status("c"), Some(&TaskStatus::Pending));
    graph.mark_completed("b");
    assert_eq!(graph.task_status("c"), Some(&TaskStatus::Ready));
    assert_eq!(graph.task_status("d"), Some(&TaskStatus::Pending));
    graph.mark_failed("c");
    graph.fail_dependents("c");
    assert_eq!(graph.task_status("d"), Some(&TaskStatus::Skipped));
    assert!(graph.is_complete());
    assert!(graph.ready_tasks().is_empty());
}

#[test]
fn a_task_without_an_id_is_refused() {
    let mut graph = TaskGraph::new();
    let e = graph.add_tasks(vec![json(r#"{"task_id": "a"}"#), json("{}")]).unwrap_err();
    assert_eq!(e, "Task missing task_id");
    assert_eq!(graph.task_status("a"), Some(&TaskStatus::Ready));
}
