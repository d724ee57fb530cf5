use erlangrt::agent_rt::release::{
    BehaviorUpgrade, InProgressRelease, ReleaseManager, ReleaseManifest, ReleasePlan, ReleaseStep,
};
use erlangrt::json::Json;
use erlangrt::util::assoc::AssocMap;

fn json(text: &str) -> Json {
    Json::parse(text).unwrap()
}

fn changes(key: &str, value: Json) -> AssocMap<String, Json> {
    let mut m = AssocMap::new();
    m.insert(key.to_string(), value);
    m
}

fn read_in_progress(dir: &Option<String>) -> Option<InProgressRelease> {
    dir.as_ref().map(|text| InProgressRelease::from_text(text).unwrap())
}


#[test]
fn test_parse_manifest() {
    let text = r#"{
        "schema_version": 1,
        "version": "1.2.0",
        "previous": "1.1.0",
        "behaviors": [
            {"name": "worker", "version": "v2", "upgrade_from": "v1", "extra": {}}
        ],
        "config_changes": {"runtime.worker_count": 16}
    }"#;
    let manifest = ReleaseManifest::from_json(text).unwrap();
    assert_eq!(manifest.version, "1.2.0");
    assert_eq!(manifest.previous, Some("1.1.0".to_string()));
    assert_eq!(manifest.behaviors.len(), 1);
    assert_eq!(manifest.behaviors[0].name, "worker");
}

#[test]
fn test_parse_manifest_unsupported_schema() {
    let text = r#"{"schema_version": 99, "version": "1.0.0", "behaviors": []}"#;
    assert!(ReleaseManifest::from_json(text).is_err());
}

#[test]
fn test_build_plan() {
    let manifest = ReleaseManifest {
        schema_version: 1,
        version: "1.2.0".to_string(),
        previous: Some("1.1.0".to_string()),
        behaviors: vec![BehaviorUpgrade {
            name: "worker".to_string(),
            version: "v2".to_string(),
            upgrade_from: "v1".to_string(),
            extra: json(r#"{}"#),
        }],
        config_changes: changes("runtime.worker_count", json(r#"16"#)),
    };
    let plan = ReleasePlan::from_manifest(
        &manifest,
        &json(r#"{"runtime.worker_count": 4}"#),
    );
    assert_eq!(plan.steps.len(), 2); // 1 behavior + 1 config
}

#[test]
fn test_plan_captures_old_values() {
    let manifest = ReleaseManifest {
        schema_version: 1,
        version: "1.0.0".to_string(),
        previous: None,
        behaviors: vec![],
        config_changes: changes("key", json(r#""new""#)),
    };
    let current_config = json(r#"{"key": "old"}"#);
    let plan = ReleasePlan::from_manifest(&manifest, &current_config);
    match &plan.steps[0] {
        ReleaseStep::ApplyConfig {
            old_value,
            new_value,
            ..
        } => {
            assert_eq!(old_value, &json(r#""old""#));
            assert_eq!(new_value, &json(r#""new""#));
        }
        _ => panic!("expected ApplyConfig"),
    }
}

#[test]
fn test_in_progress_serialization() {
    let plan = ReleasePlan {
        steps: vec![ReleaseStep::UpgradeBehavior {
            name: "w".to_string(),
            from: "v1".to_string(),
            to: "v2".to_string(),
            extra: json(r#"{}"#),
        }],
    };
    let ip = InProgressRelease {
        schema_version: 1,
        manifest_version: "1.0.0".to_string(),
        plan,
        completed_steps: 0,
    };
    let text = ip.to_text();
    let parsed = InProgressRelease::from_text(&text).unwrap();
    assert_eq!(parsed.completed_steps, 0);
    assert_eq!(parsed.plan.steps.len(), 1);
}

#[test]
fn test_write_and_read_in_progress() {
    let ip = InProgressRelease {
        schema_version: 1,
        manifest_version: "1.0.0".to_string(),
        plan: ReleasePlan { steps: vec![] },
        completed_steps: 0,
    };
    let dir = Some(ip.to_text());
    let loaded = read_in_progress(&dir);
    assert!(loaded.is_some());
    assert_eq!(loaded.unwrap().manifest_version, "1.0.0");
}

#[test]
fn test_delete_in_progress() {
    let ip = InProgressRelease {
        schema_version: 1,
        manifest_version: "1.0.0".to_string(),
        plan: ReleasePlan { steps: vec![] },
        completed_steps: 0,
    };
    let mut dir = Some(ip.to_text());
    assert!(read_in_progress(&dir).is_some());
    dir = None;
    assert!(read_in_progress(&dir).is_none());
}

#[test]
fn test_update_completed_steps() {
    let mut ip = InProgressRelease {
        schema_version: 1,
        manifest_version: "1.0.0".to_string(),
        plan: ReleasePlan {
            steps: vec![ReleaseStep::ApplyConfig {
                key: "k".to_string(),
                old_value: json(r#"1"#),
                new_value: json(r#"2"#),
            }],
        },
        completed_steps: 0,
    };
    let mut dir = Some(ip.to_text());
    assert_eq!(read_in_progress(&dir).unwrap().completed_steps, 0);
    ip.completed_steps = 1;
    dir = Some(ip.to_text());

    let loaded = read_in_progress(&dir).unwrap();
    assert_eq!(loaded.completed_steps, 1);
}

#[test]
fn test_release_manager_history_cap() {
    let mut mgr = ReleaseManager::new(2);
    for i in 0..5 {
        mgr.record_apply(ReleaseManifest {
            schema_version: 1,
            version: format!("v{}", i),
            previous: None,
            behaviors: vec![],
            config_changes: AssocMap::new(),
        });
    }
    assert_eq!(mgr.history().len(), 2); // capped at 2
    assert_eq!(mgr.current().unwrap().version, "v4");
}
