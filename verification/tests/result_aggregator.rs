use erlangrt::agent_rt::result_aggregator::{
    build_aggregator, ConcatAggregator, MergeAggregator, ResultAggregator, VoteAggregator,
};
use erlangrt::json::Json;

fn json(text: &str) -> Json {
    Json::parse(text).unwrap()
}

#[test]
fn test_concat_aggregator() {
    let agg = ConcatAggregator;
    let results = vec![json(r#"{"a": 1}"#), json(r#"{"b": 2}"#)];
    let out = agg.aggregate(&results);
    assert_eq!(out, json(r#"[{"a": 1}, {"b": 2}]"#));
}

#[test]
fn test_concat_empty() {
    let agg = ConcatAggregator;
    assert_eq!(agg.aggregate(&vec![]), json("[]"));
}

#[test]
fn test_vote_aggregator() {
    let agg = VoteAggregator { field: "decision".to_string() };
    let results = vec![
        json(r#"{"decision": "approve"}"#),
        json(r#"{"decision": "reject"}"#),
        json(r#"{"decision": "approve"}"#),
    ];
    let out = agg.aggregate(&results);
    assert_eq!(out.get_str("winner").unwrap(), "approve");
    let votes = out.get("votes").unwrap();
    assert_eq!(votes.get_u64("approve"), Some(2));
    assert_eq!(votes.get_u64("reject"), Some(1));
}

#[test]
fn test_merge_aggregator() {
    let agg = MergeAggregator;
    let results = vec![
        json(r#"{"name": "alice", "tags": ["fast"]}"#),
        json(r#"{"age": 30, "tags": ["smart"]}"#),
    ];
    let out = agg.aggregate(&results);
    assert_eq!(out.get_str("name").unwrap(), "alice");
    assert_eq!(out.get_u64("age"), Some(30));
    assert_eq!(*out.get("tags").unwrap(), json(r#"["fast", "smart"]"#));
}

#[test]
fn test_build_aggregator_concat() {
    let agg = build_aggregator("concat");
    let out = agg.aggregate(&vec![json("1"), json("2")]);
    assert_eq!(out, json("[1, 2]"));
}

#[test]
fn test_build_aggregator_unknown_defaults_concat() {
    let agg = build_aggregator("nonexistent");
    let out = agg.aggregate(&vec![json("1")]);
    assert_eq!(out, json("[1]"));
}

#[test]
fn later_results_win_in_a_merge() {
    let agg = build_aggregator("merge");
    let out = agg.aggregate(&vec![json(r#"{"a": 1, "b": 1}"#), json(r#"{"a": 2}"#)]);
    assert_eq!(out.get_u64("a"), Some(2));
    assert_eq!(out.get_u64("b"), Some(1));
}
