use erlangrt::agent_rt::mcp_client::McpClientManager;
use erlangrt::agent_rt::tool_factory::{
    brave_api_key, http_settings, parse_csv, search_choices, search_max_results, select_names,
    wanted_tools, DefaultToolFactory, SearchChoice, ToolKind,
};

fn names(list: &[&str]) -> Vec<String> {
    list.iter().map(|s| s.to_string()).collect()
}

#[test]
fn test_default_tool_factory_returns_empty_when_no_whitelist() {
    let factory = DefaultToolFactory::from_env();
    let tools = factory.choose_tools(None, true, true);
    assert!(tools.is_empty());
}

#[test]
fn test_default_tool_factory_honors_whitelist() {
    let factory = DefaultToolFactory::from_env();
    let list = names(&["web_search", "shell", "unknown_tool", "web_search"]);
    let tools = factory.choose_tools(Some(&list), true, true);

    assert_eq!(tools, vec![ToolKind::WebSearch, ToolKind::Shell]);
}

#[test]
fn test_mcp_tool_factory_disabled_when_empty() {
    let factory = DefaultToolFactory::from_env();
    let manager = McpClientManager::empty();

    assert!(!manager.is_enabled());

    // Should still return local tools
    let local = select_names(&names(&["shell"]), false);
    let tools = factory.choose_tools(Some(&local), true, true);
    assert_eq!(tools, vec![ToolKind::Shell]);
}

#[test]
fn test_mcp_tool_factory_returns_local_tools() {
    let factory = DefaultToolFactory::from_env();
    let local = select_names(&names(&["read_file", "write_file"]), false);
    let tools = factory.choose_tools(Some(&local), true, true);

    assert_eq!(tools.len(), 2);
    assert!(tools.contains(&ToolKind::ReadFile));
    assert!(tools.contains(&ToolKind::WriteFile));
}

#[test]
fn tools_that_cannot_be_had_are_left_out() {
    let factory = DefaultToolFactory::from_env();
    assert_eq!(factory.tool_by_name("git", false, true), None);
    assert_eq!(factory.tool_by_name("git", true, true), Some(ToolKind::Git));
    assert_eq!(factory.tool_by_name("http_request", true, false), None);
    assert_eq!(factory.tool_by_name("web_fetch", false, false), Some(ToolKind::WebFetch));
}

#[test]
fn settings_of_tools() {
    assert_eq!(parse_csv(Some(" a, ,b ")), names(&["a", "b"]));
    assert!(parse_csv(None).is_empty());
    assert_eq!(brave_api_key(None, Some("k"), Some("l")), Some("k".to_string()));
    assert_eq!(brave_api_key(None, None, None), None);
    assert!(http_settings(None, None, None).is_none());
    let s = http_settings(Some("a.org"), None, None).unwrap();
    assert_eq!(s.allowed_domains, names(&["a.org"]));
    assert_eq!(search_max_results(None), 5);
    assert_eq!(search_max_results(Some("99")), 10);
    let choices = search_choices(None, None, None);
    assert!(!choices.is_empty());
    assert!(matches!(choices[choices.len() - 1], SearchChoice::Ddg));
}

#[test]
fn remote_tools_are_those_that_were_asked_for() {
    let wanted = names(&["mcp__s__b", "shell"]);
    assert_eq!(select_names(&wanted, true), names(&["mcp__s__b"]));
    let offered = names(&["mcp__s__a", "mcp__s__b"]);
    assert_eq!(wanted_tools(&offered, &wanted), vec![1]);
}
