use erlangrt::agent_rt::decomposition::{
    build_decomposition_chat_op, build_decomposition_prompt, extract_json_block,
    parse_decomposition_response, tasks_from_answer, DEFAULT_DECOMPOSE_PROVIDER,
};
use erlangrt::agent_rt::types::IoOp;
use erlangrt::json::Json;

fn json(text: &str) -> Json {
    Json::parse(text).unwrap()
}

fn tasks(v: &Json) -> &Vec<Json> {
    v.get("tasks").unwrap().as_array().unwrap()
}

fn text<'a>(v: &'a Json, k: &str) -> &'a str {
    v.get_str(k).unwrap().as_str()
}

#[test]
fn test_build_decomposition_prompt_string_goal() {
    let goal = json("\"Build a REST API for todo items\"");
    let (system, user) = build_decomposition_prompt(&goal);
    assert!(system.contains("task decomposition"));
    assert!(user.contains("Build a REST API"));
}

#[test]
fn test_build_decomposition_prompt_json_goal() {
    let goal = json(r#"{"description": "Research topic X", "depth": "deep"}"#);
    let (_, user) = build_decomposition_prompt(&goal);
    assert!(user.contains("Research topic X"));
}

#[test]
fn test_build_decomposition_chat_op() {
    let goal = json("\"test goal\"");
    let op = build_decomposition_chat_op(&goal, None, None, "vendor/model");
    match op {
        IoOp::AgentChat { provider, model, system_prompt, prompt, max_iterations, .. } => {
            assert_eq!(provider, DEFAULT_DECOMPOSE_PROVIDER);
            assert_eq!(model, Some("vendor/model".to_string()));
            assert!(system_prompt.is_some());
            assert!(prompt.contains("test goal"));
            assert_eq!(max_iterations, Some(1));
        }
        _ => panic!("Expected AgentChat"),
    }
}

#[test]
fn test_build_decomposition_chat_op_custom_provider() {
    let goal = json("\"test\"");
    let op = build_decomposition_chat_op(&goal, Some("openai"), Some("gpt-4o"), "vendor/model");
    match op {
        IoOp::AgentChat { provider, model, .. } => {
            assert_eq!(provider, "openai");
            assert_eq!(model, Some("gpt-4o".to_string()));
        }
        _ => panic!("Expected AgentChat"),
    }
}

#[test]
fn test_parse_valid_json_response() {
    let response = r#"{"tasks": [{"task_id": "t1", "goal": "Do X"}, {"task_id": "t2", "goal": "Do Y"}]}"#;
    let goal = json("\"original\"");
    let result = parse_decomposition_response(response, &goal);
    assert_eq!(tasks(&result).len(), 2);
    assert_eq!(text(&tasks(&result)[0], "task_id"), "t1");
}

#[test]
fn test_parse_markdown_fenced_response() {
    let response = "Here are the tasks:\n```json\n{\"tasks\": [{\"task_id\": \"t1\", \"goal\": \"Do X\"}]}\n```\nDone!";
    let goal = json("\"original\"");
    let result = parse_decomposition_response(response, &goal);
    assert_eq!(tasks(&result).len(), 1);
}

#[test]
fn test_parse_array_response() {
    let response = r#"[{"task_id": "t1", "goal": "Do X"}, {"task_id": "t2", "goal": "Do Y"}]"#;
    let goal = json("\"original\"");
    let result = parse_decomposition_response(response, &goal);
    assert_eq!(tasks(&result).len(), 2);
}

#[test]
fn test_parse_garbage_falls_back_to_single_task() {
    let response = "I don't understand the request, sorry!";
    let goal = json("\"Build an API\"");
    let result = parse_decomposition_response(response, &goal);
    assert_eq!(tasks(&result).len(), 1);
    assert_eq!(text(&tasks(&result)[0], "task_id"), "task-0");
    assert_eq!(text(&tasks(&result)[0], "goal"), "Build an API");
}

#[test]
fn test_parse_empty_tasks_falls_back() {
    let response = r#"{"tasks": []}"#;
    let goal = json("\"Build an API\"");
    let result = parse_decomposition_response(response, &goal);
    assert_eq!(tasks(&result).len(), 1);
}

#[test]
fn test_extract_json_block_raw() {
    assert_eq!(extract_json_block(r#"{"a": 1}"#), r#"{"a": 1}"#);
}

#[test]
fn test_extract_json_block_markdown() {
    let input = "text\n```json\n{\"a\": 1}\n```\nmore";
    assert_eq!(extract_json_block(input), "{\"a\": 1}");
}

#[test]
fn some_task_whatever_the_answer() {
    let goal = json("\"g\"");
    assert_eq!(tasks(&tasks_from_answer(Err("no".to_string()), &goal)).len(), 1);
    assert_eq!(tasks(&tasks_from_answer(Ok(json("[]")), &goal)).len(), 1);
    assert_eq!(tasks(&tasks_from_answer(Ok(json("[1, 2, 3]")), &goal)).len(), 3);
}
