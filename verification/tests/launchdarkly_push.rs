use flagfile_cli::launchdarkly::{
    build_flag_patch, create_body, json_string, LdEnv, LdFlag, LdRule, LdVariation, Rollout,
    RuleTarget, WeightedVariation,
};

fn variation(value: &str) -> LdVariation {
    LdVariation { value: value.to_string(), object: format!("{{\"value\":{}}}", value) }
}

/// `FF-x { country == "NL" -> true  false }` in one environment.
fn one_flag_with_rule() -> LdFlag {
    LdFlag {
        key: "FF-x".to_string(),
        name: "FF-x".to_string(),
        description: None,
        tags: vec![],
        variations: vec![variation("true"), variation("false")],
        environments: vec![(
            "production".to_string(),
            LdEnv {
                rules: vec![LdRule {
                    description: None,
                    clauses: "[{\"attribute\":\"country\",\"contextKind\":\"user\",\"negate\":false,\"op\":\"in\",\"values\":[\"NL\"]}]".to_string(),
                    target: RuleTarget::Variation { variation: 0 },
                }],
                fallthrough: RuleTarget::Variation { variation: 1 },
                off_variation: 1,
                prerequisites: "[]".to_string(),
            },
        )],
    }
}

/// `FF-x { true }` in one environment.
fn one_flag_constant() -> LdFlag {
    LdFlag {
        key: "FF-x".to_string(),
        name: "FF-x".to_string(),
        description: None,
        tags: vec![],
        variations: vec![variation("true"), variation("false")],
        environments: vec![(
            "production".to_string(),
            LdEnv {
                rules: vec![],
                fallthrough: RuleTarget::Variation { variation: 0 },
                off_variation: 1,
                prerequisites: "[]".to_string(),
            },
        )],
    }
}

fn has_on_op(ops: &[String]) -> bool {
    ops.iter().any(|op| {
        let v: serde_json::Value = serde_json::from_str(op).unwrap();
        v.get("path").and_then(|p| p.as_str()).map(|p| p.ends_with("/on")).unwrap_or(false)
    })
}

fn live(values: &[&str]) -> Vec<String> {
    values.iter().map(|s| s.to_string()).collect()
}

#[test]
fn create_enables_on_update_leaves_it() {
    let flag = one_flag_with_rule();
    let l = live(&["true", "false"]);
    let created = build_flag_patch(&flag, None, &l, true).ok().expect("create patch");
    assert!(has_on_op(&created.ops), "create must enable `on`");
    let updated = build_flag_patch(&flag, None, &l, false).ok().expect("update patch");
    assert!(!has_on_op(&updated.ops), "update must not touch `on`");
}

#[test]
fn missing_variation_is_appended() {
    let flag = one_flag_with_rule();
    let patch = build_flag_patch(&flag, None, &live(&["true"]), false).ok().expect("patch");
    assert_eq!(patch.var_ops.len(), 1);
    let op: serde_json::Value = serde_json::from_str(&patch.var_ops[0]).unwrap();
    assert!(op["path"].as_str().unwrap().starts_with("/variations"));
}

#[test]
fn unconfigured_env_errors() {
    let flag = one_flag_constant();
    let err = build_flag_patch(&flag, Some("staging"), &live(&["true", "false"]), false);
    assert!(err.is_err());
    assert_eq!(err.err().unwrap(), "environment 'staging' is not configured for this flag");
}

#[test]
fn create_body_has_flag_level_fields() {
    let flag = one_flag_constant();
    let body: serde_json::Value = serde_json::from_str(&create_body(&flag)).unwrap();
    assert_eq!(body["key"], "FF-x");
    assert!(body.get("variations").is_some());
    assert!(body.get("environments").is_none());
}

#[test]
fn create_body_matches_serde_json() {
    let mut flag = one_flag_constant();
    flag.description = Some("Say \"hi\"\n".to_string());
    flag.tags = vec!["a".to_string(), "b\\c".to_string()];
    let mut expected = serde_json::Map::new();
    expected.insert("key".to_string(), serde_json::Value::from("FF-x"));
    expected.insert("name".to_string(), serde_json::Value::from("FF-x"));
    expected.insert(
        "variations".to_string(),
        serde_json::from_str("[{\"value\":true},{\"value\":false}]").unwrap(),
    );
    expected.insert("tags".to_string(), serde_json::Value::from(vec!["a", "b\\c"]));
    expected.insert("description".to_string(), serde_json::Value::from("Say \"hi\"\n"));
    assert_eq!(create_body(&flag), serde_json::to_string(&serde_json::Value::Object(expected)).unwrap());
}

#[test]
fn patch_remaps_indices_by_value() {
    let flag = one_flag_with_rule();
    // LaunchDarkly holds the values in the other order
    let patch = build_flag_patch(&flag, Some("production"), &live(&["false", "true"]), false).ok().unwrap();
    assert!(patch.var_ops.is_empty());
    assert_eq!(
        patch.ops,
        vec![
            "{\"op\":\"replace\",\"path\":\"/name\",\"value\":\"FF-x\"}".to_string(),
            "{\"op\":\"replace\",\"path\":\"/tags\",\"value\":[]}".to_string(),
            "{\"op\":\"replace\",\"path\":\"/environments/production/rules\",\"value\":[{\"clauses\":[{\"attribute\":\"country\",\"contextKind\":\"user\",\"negate\":false,\"op\":\"in\",\"values\":[\"NL\"]}],\"variation\":1}]}".to_string(),
            "{\"op\":\"replace\",\"path\":\"/environments/production/fallthrough\",\"value\":{\"variation\":0}}".to_string(),
            "{\"op\":\"replace\",\"path\":\"/environments/production/offVariation\",\"value\":0}".to_string(),
            "{\"op\":\"replace\",\"path\":\"/environments/production/prerequisites\",\"value\":[]}".to_string(),
        ]
    );
}

#[test]
fn rollout_target_serialized() {
    let mut flag = one_flag_constant();
    flag.environments[0].1.fallthrough = RuleTarget::Rollout {
        rollout: Rollout {
            variations: vec![
                WeightedVariation { variation: 0, weight: 25000 },
                WeightedVariation { variation: 1, weight: 75000 },
            ],
            bucket_by: Some("userId".to_string()),
        },
    };
    let patch = build_flag_patch(&flag, None, &live(&["true", "false"]), false).ok().unwrap();
    assert_eq!(
        patch.ops[3],
        "{\"op\":\"replace\",\"path\":\"/environments/production/fallthrough\",\"value\":{\"rollout\":{\"bucketBy\":\"userId\",\"variations\":[{\"variation\":0,\"weight\":25000},{\"variation\":1,\"weight\":75000}]}}}"
    );
}

#[test]
fn json_strings_escaped_like_serde() {
    for s in ["plain", "q\"uote", "back\\slash", "tab\there", "ctl\u{1}x\u{1f}", "ünï"] {
        let ours: String = json_string(s).into_iter().collect();
        assert_eq!(ours, serde_json::to_string(s).unwrap());
    }
}
