use erlangrt::agent_rt::config::{config_from, load_config_from_str, AppConfig};
use erlangrt::agent_rt::error::AgentRtError;
use erlangrt::json::Json;

#[test]
fn test_default_config() {
    let config = AppConfig::default();
    assert_eq!(config.runtime.worker_count, 4);
    assert_eq!(config.runtime.mailbox_capacity, 1024);
    assert_eq!(config.checkpoint.store, "sqlite");
    assert_eq!(config.checkpoint.ttl_hours, 24);
    assert_eq!(config.server.bind, "127.0.0.1:9090");
    assert!(config.server.enabled);
    assert_eq!(config.logging.level, "info");
    assert_eq!(config.logging.format, "pretty");
}

#[test]
fn test_parse_toml_config() {
    let toml_str = r#"
[runtime]
worker_count = 8
mailbox_capacity = 2048

[checkpoint]
store = "file"
path = "/tmp/checkpoints"

[server]
enabled = false
bind = "0.0.0.0:8080"

[logging]
level = "debug"
format = "json"
"#;
    let config = load_config_from_str(toml_str).unwrap();
    assert_eq!(config.runtime.worker_count, 8);
    assert_eq!(config.runtime.mailbox_capacity, 2048);
    assert_eq!(config.checkpoint.store, "file");
    assert!(!config.server.enabled);
    assert_eq!(config.logging.level, "debug");
    assert_eq!(config.logging.format, "json");
}

#[test]
fn test_partial_toml_uses_defaults() {
    let toml_str = r#"
[runtime]
worker_count = 16
"#;
    let config = load_config_from_str(toml_str).unwrap();
    assert_eq!(config.runtime.worker_count, 16);
    // Everything else should be default
    assert_eq!(config.runtime.mailbox_capacity, 1024);
    assert_eq!(config.checkpoint.store, "sqlite");
    assert!(config.server.enabled);
}

#[test]
fn test_empty_toml_gives_defaults() {
    let config = load_config_from_str("").unwrap();
    assert_eq!(config.runtime.worker_count, 4);
}

#[test]
fn test_invalid_toml_returns_error() {
    let result = load_config_from_str("not [valid toml {{{}");
    assert!(result.is_err());
}

#[test]
fn setting_of_the_wrong_type_is_refused() {
    let e = load_config_from_str("[runtime]\nworker_count = \"many\"\n").unwrap_err();
    assert!(matches!(e, AgentRtError::Config(_)));
}

#[test]
fn failed_reading_becomes_a_config_error() {
    let e = config_from(Err("broken".to_string())).unwrap_err();
    assert!(matches!(&e, AgentRtError::Config(m) if m.contains("broken")));
    assert!(e.text().starts_with("config: "));
    assert_eq!(config_from(Json::parse("{}")).unwrap(), AppConfig::default());
}

#[test]
fn a_date_is_no_text() {
    assert!(load_config_from_str("[logging]\nlevel = 1979-05-27\n").is_err());
    assert!(load_config_from_str("[logging]\nlevel = \"1979-05-27\"\n").is_ok());
}

#[test]
fn a_table_may_be_written_as_a_list() {
    let config = load_config_from_str("logging = [\"debug\"]\nserver = [false, \"x\", 3]\n").unwrap();
    assert_eq!(config.logging.level, "debug");
    assert_eq!(config.logging.format, "pretty");
    assert!(!config.server.enabled);
    assert_eq!(config.server.bind, "x");
    assert!(load_config_from_str("logging = [1]\n").is_err());
}
