use flagfile_cli::ast::{FlagReturn, Rule};
use flagfile_cli::evaluate::{
    bool_matches_upper, evaluate_flag_with_env, evaluate_rules_with_env,
    result_matches, run_test_case, EvalFlag, TestOutcome,
};

fn on(b: bool) -> FlagReturn {
    FlagReturn::OnOff(b)
}

fn flag(name: &str, requires: &[&str], rules: Vec<Rule<bool>>) -> EvalFlag {
    EvalFlag {
        name: name.to_string(),
        requires: requires.iter().map(|s| s.to_string()).collect(),
        rules,
    }
}

#[test]
fn eval_first_matching_rule_wins() {
    let rules = vec![
        Rule::BoolExpressionValue(false, FlagReturn::Integer(1)),
        Rule::BoolExpressionValue(true, FlagReturn::Integer(2)),
        Rule::Value(FlagReturn::Integer(3)),
    ];
    assert_eq!(evaluate_rules_with_env(&rules, None), Some(FlagReturn::Integer(2)));
}

#[test]
fn eval_no_rule_matches() {
    let rules = vec![Rule::BoolExpressionValue(false, on(true))];
    assert_eq!(evaluate_rules_with_env(&rules, None), None);
}

#[test]
fn eval_env_rule_only_for_active_env() {
    let rules = vec![
        Rule::EnvRule { env: "dev".to_string(), rules: vec![Rule::Value(on(true))] },
        Rule::Value(on(false)),
    ];
    assert_eq!(evaluate_rules_with_env(&rules, Some("dev")), Some(on(true)));
    assert_eq!(evaluate_rules_with_env(&rules, Some("prod")), Some(on(false)));
    assert_eq!(evaluate_rules_with_env(&rules, None), Some(on(false)));
}

#[test]
fn eval_env_block_without_match_falls_through() {
    let rules = vec![
        Rule::EnvRule {
            env: "prod".to_string(),
            rules: vec![Rule::BoolExpressionValue(false, FlagReturn::Str("a".to_string()))],
        },
        Rule::Value(FlagReturn::Str("b".to_string())),
    ];
    assert_eq!(evaluate_rules_with_env(&rules, Some("prod")), Some(FlagReturn::Str("b".to_string())));
}

#[test]
fn eval_requires_met() {
    let flags = vec![
        flag("FF-base", &[], vec![Rule::Value(on(true))]),
        flag("FF-top", &["FF-base"], vec![Rule::Value(FlagReturn::Integer(7))]),
    ];
    assert_eq!(evaluate_flag_with_env("FF-top", &flags, None), Some(FlagReturn::Integer(7)));
}

#[test]
fn eval_requires_not_met_or_missing() {
    let flags = vec![
        flag("FF-base", &[], vec![Rule::Value(on(false))]),
        flag("FF-top", &["FF-base"], vec![Rule::Value(on(true))]),
        flag("FF-orphan", &["FF-nowhere"], vec![Rule::Value(on(true))]),
    ];
    assert_eq!(evaluate_flag_with_env("FF-top", &flags, None), None);
    assert_eq!(evaluate_flag_with_env("FF-orphan", &flags, None), None);
    assert_eq!(evaluate_flag_with_env("FF-unknown", &flags, None), None);
}

#[test]
fn eval_last_definition_wins() {
    let flags = vec![
        flag("FF-a", &[], vec![Rule::Value(FlagReturn::Integer(1))]),
        flag("FF-a", &[], vec![Rule::Value(FlagReturn::Integer(2))]),
    ];
    assert_eq!(evaluate_flag_with_env("FF-a", &flags, None), Some(FlagReturn::Integer(2)));
}

#[test]
fn result_matches_booleans_any_case() {
    assert!(result_matches(&on(true), "TRUE"));
    assert!(result_matches(&on(true), "true"));
    assert!(result_matches(&on(false), "False"));
    assert!(!result_matches(&on(true), "FALSE"));
    assert!(!result_matches(&on(true), "yes"));
}

#[test]
fn result_matches_integers_strings_json() {
    assert!(result_matches(&FlagReturn::Integer(42), "42"));
    assert!(result_matches(&FlagReturn::Integer(-5), "-5"));
    assert!(result_matches(&FlagReturn::Integer(5), "+5"));
    assert!(!result_matches(&FlagReturn::Integer(42), "42.0"));
    assert!(result_matches(&FlagReturn::Str("blue".to_string()), "\"blue\""));
    assert!(result_matches(&FlagReturn::Str("blue".to_string()), "blue"));
    assert!(!result_matches(&FlagReturn::Str("blue".to_string()), "\"red\""));
    assert!(result_matches(&FlagReturn::Json("{\"a\":1,\"b\":[2]}".to_string()), "{ \"b\": [2], \"a\": 1 }"));
    assert!(!result_matches(&FlagReturn::Json("{\"a\":1}".to_string()), "{\"a\":2}"));
    assert!(!result_matches(&FlagReturn::Json("{\"a\":1}".to_string()), "not json"));
}

#[test]
fn json_results_compare_by_value() {
    assert!(result_matches(&FlagReturn::Json("0.0".to_string()), "-0.0"));
    assert!(result_matches(&FlagReturn::Json("{\"x\":-0.0}".to_string()), "{\"x\": 0.0}"));
    assert!(result_matches(&FlagReturn::Json("100.0".to_string()), "1e2"));
    assert!(!result_matches(&FlagReturn::Json("1".to_string()), "1.0"));
    assert!(!result_matches(&FlagReturn::Json("[1,2]".to_string()), "[2,1]"));
}

#[test]
fn bool_match_helper() {
    assert!(bool_matches_upper(true, "TRUE"));
    assert!(bool_matches_upper(false, "FALSE"));
    assert!(!bool_matches_upper(false, "TRUE"));
    assert!(!bool_matches_upper(true, "true"));
}

#[test]
fn test_case_outcomes() {
    let flags = vec![
        flag("FF-a", &[], vec![Rule::BoolExpressionValue(true, on(true)), Rule::Value(on(false))]),
        flag("FF-none", &[], vec![Rule::BoolExpressionValue(false, on(true))]),
    ];
    assert_eq!(run_test_case("FF-a", "TRUE", &flags, None), TestOutcome::Pass);
    assert_eq!(run_test_case("FF-a", "FALSE", &flags, None), TestOutcome::Fail);
    assert_eq!(run_test_case("FF-b", "TRUE", &flags, None), TestOutcome::FlagNotFound);
    assert_eq!(run_test_case("FF-none", "TRUE", &flags, None), TestOutcome::NoRuleMatched);
}
