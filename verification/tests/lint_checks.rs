use chrono::Datelike;
use flagfile_cli::ast::{AstNode, Atom, FlagDefinition, FlagMetadata, FlagReturn, ParsedFlagfile, Rule};
use flagfile_cli::lint::{
    circular_deps, circular_segments, deprecated, deprecated_no_expiry, duplicate_flags,
    duplicate_requires, empty_flag, env_missing_default, experiment_no_expiry, expired, lint_all,
    lint_flag, missing_default, missing_owner, mixed_return_types, redundant_function,
    shadowed_env_rules, tautology, undefined_requires, undefined_segment, unreachable_rules,
    unused_segments, LintLevel, LintWarning,
};

fn meta() -> FlagMetadata {
    FlagMetadata { owner: None, deprecated: None, expires: None, flag_type: None, requires: vec![] }
}

fn def(rules: Vec<Rule<AstNode>>) -> FlagDefinition {
    FlagDefinition { metadata: meta(), rules }
}

fn value(b: bool) -> Rule<AstNode> {
    Rule::Value(FlagReturn::OnOff(b))
}

fn when(n: AstNode, b: bool) -> Rule<AstNode> {
    Rule::BoolExpressionValue(n, FlagReturn::OnOff(b))
}

fn var(x: &str) -> AstNode {
    AstNode::Variable(x.to_string())
}

fn seg(x: &str) -> AstNode {
    AstNode::Segment(x.to_string())
}

fn env_rule(env: &str, rules: Vec<Rule<AstNode>>) -> Rule<AstNode> {
    Rule::EnvRule { env: env.to_string(), rules }
}

fn msgs(ws: &[LintWarning]) -> Vec<String> {
    ws.iter().map(|w| w.message.clone()).collect()
}

fn day(y: i32, m: u32, d: u32) -> i32 {
    chrono::NaiveDate::from_ymd_opt(y, m, d).unwrap().num_days_from_ce()
}

fn flagfile(flags: Vec<(&str, FlagDefinition)>, segments: Vec<(&str, AstNode)>) -> ParsedFlagfile {
    ParsedFlagfile {
        flags: flags.into_iter().map(|(n, d)| (n.to_string(), d)).collect(),
        segments: segments.into_iter().map(|(n, e)| (n.to_string(), e)).collect(),
    }
}

#[test]
fn lint_deprecated_quotes_message() {
    let mut d = def(vec![value(true)]);
    d.metadata.deprecated = Some("use FF-new".to_string());
    let w = deprecated::check("FF-old", &d);
    assert_eq!(msgs(&w), vec!["FF-old is deprecated: \"use FF-new\"".to_string()]);
    assert_eq!(w[0].level, LintLevel::Warning);
    assert!(deprecated::check("FF-old", &def(vec![value(true)])).is_empty());
}

#[test]
fn lint_deprecated_without_expiry() {
    let mut d = def(vec![value(true)]);
    d.metadata.deprecated = Some("x".to_string());
    assert_eq!(
        msgs(&deprecated_no_expiry::check("FF-a", &d)),
        vec!["FF-a: @deprecated but no @expires set".to_string()]
    );
    d.metadata.expires = Some(day(2030, 1, 1));
    assert!(deprecated_no_expiry::check("FF-a", &d).is_empty());
}

#[test]
fn lint_empty_flag() {
    assert_eq!(
        msgs(&empty_flag::check("FF-e", &def(vec![]))),
        vec!["FF-e: flag has no rules (will always evaluate to None)".to_string()]
    );
    assert!(empty_flag::check("FF-e", &def(vec![value(false)])).is_empty());
}

#[test]
fn lint_experiment_without_expiry() {
    let mut d = def(vec![value(true)]);
    d.metadata.flag_type = Some("experiment".to_string());
    assert_eq!(
        msgs(&experiment_no_expiry::check("FF-x", &d)),
        vec!["FF-x: type=experiment but no @expires set".to_string()]
    );
    d.metadata.flag_type = Some("release".to_string());
    assert!(experiment_no_expiry::check("FF-x", &d).is_empty());
}

#[test]
fn lint_missing_owner_needs_lifecycle_metadata() {
    let mut d = def(vec![value(true)]);
    assert!(missing_owner::check("FF-o", &d).is_empty());
    d.metadata.flag_type = Some("release".to_string());
    assert_eq!(msgs(&missing_owner::check("FF-o", &d)), vec!["FF-o: missing @owner".to_string()]);
    d.metadata.owner = Some("team".to_string());
    assert!(missing_owner::check("FF-o", &d).is_empty());
}

#[test]
fn lint_missing_default_is_error() {
    let d = def(vec![when(var("a"), true)]);
    let w = missing_default::check("FF-m", &d);
    assert_eq!(msgs(&w), vec!["FF-m: no default case (last rule is conditional)".to_string()]);
    assert_eq!(w[0].level, LintLevel::Error);
    assert!(missing_default::check("FF-m", &def(vec![when(var("a"), true), value(false)])).is_empty());
    assert!(missing_default::check("FF-m", &def(vec![value(false)])).is_empty());
}

#[test]
fn lint_env_rules_without_fallback() {
    let d = def(vec![env_rule("dev", vec![value(true)])]);
    assert_eq!(
        msgs(&env_missing_default::check("FF-env", &d)),
        vec!["FF-env: has @env rules but no fallback for unlisted environments".to_string()]
    );
    let d2 = def(vec![env_rule("dev", vec![value(true)]), value(false)]);
    assert!(env_missing_default::check("FF-env", &d2).is_empty());
}

#[test]
fn lint_expired_flag_reports_date_and_age() {
    let mut d = def(vec![value(true)]);
    d.metadata.expires = Some(day(2024, 1, 1));
    let w = expired::check("FF-old", &d, day(2024, 1, 11));
    assert_eq!(
        msgs(&w),
        vec!["FF-old expired 2024-01-01 (10 days ago). Run: ff find -s FF-old".to_string()]
    );
    assert_eq!(w[0].level, LintLevel::Error);
    assert!(expired::check("FF-old", &d, day(2024, 1, 1)).is_empty());
    assert!(expired::check("FF-old", &d, day(2023, 12, 31)).is_empty());
}

#[test]
fn lint_duplicate_requires() {
    let mut d = def(vec![value(true)]);
    d.metadata.requires = vec!["FF-a".to_string(), "FF-b".to_string(), "FF-a".to_string()];
    assert_eq!(
        msgs(&duplicate_requires::check("FF-r", &d)),
        vec!["FF-r: duplicate @requires \"FF-a\"".to_string()]
    );
}

#[test]
fn lint_unreachable_rules_counted() {
    let d = def(vec![when(var("a"), true), value(false), value(true), when(var("b"), true)]);
    assert_eq!(
        msgs(&unreachable_rules::check("FF-u", &d)),
        vec!["FF-u: 2 unreachable rule(s) after catch-all".to_string()]
    );
    assert!(unreachable_rules::check("FF-u", &def(vec![when(var("a"), true), value(false)])).is_empty());
}

#[test]
fn lint_mixed_return_types_sorted() {
    let d = def(vec![
        Rule::BoolExpressionValue(var("a"), FlagReturn::Str("x".to_string())),
        env_rule("dev", vec![Rule::Value(FlagReturn::Integer(3))]),
        value(true),
    ]);
    assert_eq!(
        msgs(&mixed_return_types::check("FF-t", &d)),
        vec!["FF-t: mixed return types across rules: boolean, integer, string".to_string()]
    );
    assert!(mixed_return_types::check("FF-t", &def(vec![when(var("a"), true), value(false)])).is_empty());
}

#[test]
fn lint_tautology_inside_env_block() {
    let t = AstNode::Constant(Atom::Boolean(true));
    let d = def(vec![env_rule("prod", vec![when(t, true)]), value(false)]);
    assert_eq!(
        msgs(&tautology::check("FF-t", &d)),
        vec!["FF-t: tautological condition (true -> ...) is always matched".to_string()]
    );
    let f = AstNode::Constant(Atom::Boolean(false));
    assert!(tautology::check("FF-t", &def(vec![when(f, true), value(false)])).is_empty());
}

#[test]
fn lint_redundant_nested_function() {
    let inner = AstNode::Function("lower".to_string(), Box::new(var("name")));
    let outer = AstNode::Function("lower".to_string(), Box::new(inner));
    let d = def(vec![when(AstNode::Compare(Box::new(outer), Box::new(var("x"))), true), value(false)]);
    assert_eq!(
        msgs(&redundant_function::check("FF-f", &d)),
        vec!["FF-f: redundant nested lower(lower(...))".to_string()]
    );
    let mixed = AstNode::Function(
        "upper".to_string(),
        Box::new(AstNode::Function("lower".to_string(), Box::new(var("name")))),
    );
    assert!(redundant_function::check("FF-f", &def(vec![when(mixed, true)])).is_empty());
}

#[test]
fn lint_shadowed_env_rules() {
    let d = def(vec![
        env_rule("dev", vec![value(true)]),
        env_rule("prod", vec![value(true)]),
        env_rule("dev", vec![value(false)]),
        value(false),
    ]);
    assert_eq!(
        msgs(&shadowed_env_rules::check("FF-s", &d)),
        vec!["FF-s: duplicate @env \"dev\" (only the first match is used)".to_string()]
    );
}

#[test]
fn lint_duplicate_flags() {
    let p = flagfile(
        vec![("FF-a", def(vec![value(true)])), ("FF-b", def(vec![value(true)])), ("FF-a", def(vec![value(false)]))],
        vec![],
    );
    assert_eq!(msgs(&duplicate_flags::check(&p)), vec!["FF-a is defined more than once".to_string()]);
}

#[test]
fn lint_undefined_requires() {
    let mut d = def(vec![value(true)]);
    d.metadata.requires = vec!["FF-base".to_string(), "FF-missing".to_string()];
    let p = flagfile(vec![("FF-base", def(vec![value(true)])), ("FF-top", d)], vec![]);
    let w = undefined_requires::check(&p);
    assert_eq!(msgs(&w), vec!["FF-top: @requires references undefined flag \"FF-missing\"".to_string()]);
    assert_eq!(w[0].level, LintLevel::Error);
}

#[test]
fn lint_unused_and_undefined_segments() {
    let p = flagfile(
        vec![("FF-a", def(vec![when(seg("beta"), true), when(seg("ghost"), true), value(false)]))],
        vec![("beta", var("x")), ("lonely", var("y")), ("inner", var("z")), ("outer", seg("inner"))],
    );
    assert_eq!(
        msgs(&unused_segments::check(&p)),
        vec![
            "segment \"lonely\" is defined but never used".to_string(),
            "segment \"outer\" is defined but never used".to_string(),
        ]
    );
    assert_eq!(
        msgs(&undefined_segment::check(&p)),
        vec!["segment \"ghost\" is used but never defined".to_string()]
    );
}

#[test]
fn lint_circular_requires_reported() {
    let mut a = def(vec![value(true)]);
    a.metadata.requires = vec!["FF-b".to_string()];
    let mut b = def(vec![value(true)]);
    b.metadata.requires = vec!["FF-a".to_string()];
    let p = flagfile(vec![("FF-a", a), ("FF-b", b), ("FF-c", def(vec![value(true)]))], vec![]);
    let w = circular_deps::check(&p);
    assert_eq!(msgs(&w), vec!["circular dependency: FF-a -> FF-b -> FF-a".to_string()]);
    assert_eq!(w[0].level, LintLevel::Error);
}

#[test]
fn lint_acyclic_requires_not_reported() {
    let mut a = def(vec![value(true)]);
    a.metadata.requires = vec!["FF-b".to_string(), "FF-c".to_string()];
    let mut b = def(vec![value(true)]);
    b.metadata.requires = vec!["FF-c".to_string()];
    let p = flagfile(vec![("FF-a", a), ("FF-b", b), ("FF-c", def(vec![value(true)]))], vec![]);
    assert!(circular_deps::check(&p).is_empty());
}

#[test]
fn lint_self_requirement_is_a_cycle() {
    let mut a = def(vec![value(true)]);
    a.metadata.requires = vec!["FF-a".to_string()];
    let p = flagfile(vec![("FF-a", a)], vec![]);
    assert_eq!(msgs(&circular_deps::check(&p)), vec!["circular dependency: FF-a -> FF-a".to_string()]);
}

#[test]
fn lint_circular_segments_reported() {
    let p = flagfile(
        vec![],
        vec![
            ("a", AstNode::Logic(Box::new(var("x")), Box::new(seg("b")))),
            ("b", AstNode::Coalesce(vec![var("y"), seg("c")])),
            ("c", seg("b")),
        ],
    );
    assert_eq!(
        msgs(&circular_segments::check(&p)),
        vec!["circular segment dependency: a -> b -> c -> b".to_string()]
    );
}

#[test]
fn lint_flag_runs_checks_in_order() {
    let mut d = def(vec![when(var("a"), true)]);
    d.metadata.deprecated = Some("gone".to_string());
    let rate = vec![LintWarning::error("FF-z: percentage rate 120% is out of valid range (0-100)".to_string())];
    assert_eq!(
        msgs(&lint_flag("FF-z", &d, day(2024, 1, 1), rate)),
        vec![
            "FF-z is deprecated: \"gone\"".to_string(),
            "FF-z: missing @owner".to_string(),
            "FF-z: @deprecated but no @expires set".to_string(),
            "FF-z: no default case (last rule is conditional)".to_string(),
            "FF-z: percentage rate 120% is out of valid range (0-100)".to_string(),
        ]
    );
}

#[test]
fn lint_all_clean_flagfile_has_no_findings() {
    let p = flagfile(
        vec![("FF-a", def(vec![when(seg("beta"), true), value(false)])), ("FF-b", def(vec![value(true)]))],
        vec![("beta", var("x"))],
    );
    assert!(lint_all(&p, day(2024, 1, 1), vec![vec![], vec![]]).is_empty());
}

#[test]
fn lint_all_orders_global_then_per_flag() {
    let p = flagfile(
        vec![("FF-a", def(vec![])), ("FF-a", def(vec![value(true)]))],
        vec![("unused", var("x"))],
    );
    assert_eq!(
        msgs(&lint_all(&p, day(2024, 1, 1), vec![vec![], vec![]])),
        vec![
            "FF-a is defined more than once".to_string(),
            "segment \"unused\" is defined but never used".to_string(),
            "FF-a: flag has no rules (will always evaluate to None)".to_string(),
        ]
    );
}
