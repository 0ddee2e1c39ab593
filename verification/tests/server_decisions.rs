use flagfile_cli::ast::{FlagDefinition, FlagMetadata, FlagReturn, Rule};
use flagfile_cli::auth::TokenPermission;
use flagfile_cli::config::{FfServerConfig, NamespaceConfig};
use flagfile_cli::evaluate::{evaluate_flag_with_reason, evaluate_rules_with_reason, EvalFlag};
use flagfile_cli::server::{
    eval_plain_answer, flag_return_to_ofrep, flags_count, get_token, is_multi_tenant_config_text,
    ofrep_answer, plain_value, put_route, readiness, unexpected_content, Access, AppState, PutRoute,
    RaftRole, ROOT_NAMESPACE,
};

fn tokens(v: &[&str]) -> Vec<String> {
    v.iter().map(|s| s.to_string()).collect()
}

fn multi() -> AppState {
    let mut config = FfServerConfig::default();
    config.root = NamespaceConfig { read_tokens: tokens(&["root-r"]), write_tokens: tokens(&["root-w"]) };
    config.namespaces.push((
        "team".to_string(),
        NamespaceConfig { read_tokens: tokens(&["team-r"]), write_tokens: tokens(&["team-w"]) },
    ));
    config.namespaces.push((
        "open".to_string(),
        NamespaceConfig { read_tokens: vec![], write_tokens: vec![] },
    ));
    AppState { config, multi_tenant: true }
}

fn single() -> AppState {
    let mut config = FfServerConfig::default();
    config.root = NamespaceConfig { read_tokens: tokens(&["ignored"]), write_tokens: vec![] };
    AppState { config, multi_tenant: false }
}

#[test]
fn resolve_namespace_defaults_to_root() {
    assert_eq!(AppState::resolve_namespace(None), ROOT_NAMESPACE);
    assert_eq!(ROOT_NAMESPACE, "__root__");
    assert_eq!(AppState::resolve_namespace(Some("team")), "team");
}

#[test]
fn namespace_config_single_tenant_is_permissive() {
    let c = single().namespace_config("anything").unwrap();
    assert!(c.read_tokens.is_empty() && c.write_tokens.is_empty());
}

#[test]
fn namespace_config_multi_tenant_lookups() {
    let st = multi();
    assert_eq!(st.namespace_config(ROOT_NAMESPACE).unwrap().write_tokens, tokens(&["root-w"]));
    assert_eq!(st.namespace_config("team").unwrap().read_tokens, tokens(&["team-r"]));
    assert!(st.namespace_config("missing").is_none());
}

#[test]
fn access_unknown_namespace_forbidden() {
    assert_eq!(multi().check_access("missing", Some("team-w"), TokenPermission::Read), Access::Forbidden);
}

#[test]
fn access_token_checks() {
    let st = multi();
    assert_eq!(st.check_access("team", None, TokenPermission::Read), Access::Unauthorized);
    assert_eq!(st.check_access("team", Some("team-r"), TokenPermission::Read), Access::Allowed);
    assert_eq!(st.check_access("team", Some("team-r"), TokenPermission::Write), Access::Unauthorized);
    assert_eq!(st.check_access("team", Some("team-w"), TokenPermission::Read), Access::Allowed);
    assert_eq!(st.check_access("team", Some("root-w"), TokenPermission::Write), Access::Unauthorized);
    assert_eq!(st.check_access(ROOT_NAMESPACE, Some("root-w"), TokenPermission::Write), Access::Allowed);
    assert_eq!(st.check_access("open", None, TokenPermission::Write), Access::Allowed);
}

#[test]
fn access_single_tenant_always_allowed() {
    let st = single();
    assert_eq!(st.check_access(ROOT_NAMESPACE, None, TokenPermission::Write), Access::Allowed);
    assert_eq!(st.check_access("other", Some("x"), TokenPermission::Read), Access::Allowed);
}

#[test]
fn bearer_token_from_header() {
    assert_eq!(get_token(Some("Bearer abc")), Some("abc".to_string()));
    assert_eq!(get_token(Some("Basic abc")), None);
    assert_eq!(get_token(Some("bearer abc")), None);
    assert_eq!(get_token(None), None);
}

#[test]
fn leftover_content_first_line() {
    assert_eq!(unexpected_content("  \n\t "), None);
    assert_eq!(unexpected_content(""), None);
    assert_eq!(unexpected_content("\n   FF-x oops  \nmore\n"), Some("FF-x oops  ".to_string()));
    assert_eq!(unexpected_content(" tail "), Some("tail".to_string()));
}

fn def() -> FlagDefinition {
    FlagDefinition {
        metadata: FlagMetadata { owner: None, deprecated: None, expires: None, flag_type: None, requires: vec![] },
        rules: vec![Rule::Value(FlagReturn::OnOff(true))],
    }
}

#[test]
fn flags_count_counts_names_once() {
    let flags = vec![
        ("FF-a".to_string(), def()),
        ("FF-b".to_string(), def()),
        ("FF-a".to_string(), def()),
    ];
    assert_eq!(flags_count(&flags), 2);
    assert_eq!(flags_count(&vec![]), 0);
}

#[test]
fn put_route_choices() {
    assert_eq!(put_route(None, true), PutRoute::Direct);
    assert_eq!(put_route(Some((true, 1)), false), PutRoute::Propose);
    assert_eq!(put_route(Some((false, 0)), true), PutRoute::NoLeader);
    assert_eq!(put_route(Some((false, 2)), true), PutRoute::Forward(2));
    assert_eq!(put_route(Some((false, 2)), false), PutRoute::Direct);
}

#[test]
fn plain_value_texts() {
    assert_eq!(plain_value(&FlagReturn::OnOff(true)), "true");
    assert_eq!(plain_value(&FlagReturn::OnOff(false)), "false");
    assert_eq!(plain_value(&FlagReturn::Integer(-42)), "-42");
    assert_eq!(plain_value(&FlagReturn::Str("blue".to_string())), "blue");
    assert_eq!(plain_value(&FlagReturn::Json("{\"a\":1}".to_string())), "{\"a\":1}");
}

#[test]
fn eval_plain_answers() {
    assert_eq!(eval_plain_answer(false, &None), (404, "flag not found".to_string()));
    assert_eq!(eval_plain_answer(true, &None), (422, "no rule matched".to_string()));
    assert_eq!(
        eval_plain_answer(true, &Some((FlagReturn::Integer(7), "DEFAULT"))),
        (200, "7".to_string())
    );
}

#[test]
fn ofrep_answers() {
    let a = flag_return_to_ofrep("FF-x", &FlagReturn::Json("[1]".to_string()), "TARGETING_MATCH");
    assert_eq!(a.key, "FF-x");
    assert_eq!(a.reason, "TARGETING_MATCH");
    assert_eq!(a.variant, "json");
    assert_eq!(a.value, FlagReturn::Json("[1]".to_string()));
    let b = ofrep_answer("FF-y", None);
    assert_eq!(b.reason, "DEFAULT");
    assert_eq!(b.variant, "false");
    assert_eq!(b.value, FlagReturn::OnOff(false));
    let c = ofrep_answer("FF-z", Some((FlagReturn::Integer(3), "DEFAULT")));
    assert_eq!(c.variant, "3");
    assert_eq!(c.key, "FF-z");
}

#[test]
fn reasons_of_evaluation() {
    let rules = vec![
        Rule::BoolExpressionValue(false, FlagReturn::Integer(1)),
        Rule::EnvRule { env: "dev".to_string(), rules: vec![Rule::BoolExpressionValue(true, FlagReturn::Integer(2))] },
        Rule::Value(FlagReturn::Integer(3)),
    ];
    assert_eq!(evaluate_rules_with_reason(&rules, Some("dev")), Some((FlagReturn::Integer(2), "TARGETING_MATCH")));
    assert_eq!(evaluate_rules_with_reason(&rules, None), Some((FlagReturn::Integer(3), "DEFAULT")));
    assert_eq!(evaluate_rules_with_reason(&vec![], None), None);
}

#[test]
fn flag_reason_checks_requirements() {
    let flags = vec![
        EvalFlag { name: "FF-base".to_string(), requires: vec![], rules: vec![Rule::Value(FlagReturn::OnOff(false))] },
        EvalFlag {
            name: "FF-dep".to_string(),
            requires: vec!["FF-base".to_string()],
            rules: vec![Rule::Value(FlagReturn::OnOff(true))],
        },
        EvalFlag { name: "FF-free".to_string(), requires: vec![], rules: vec![Rule::Value(FlagReturn::Integer(5))] },
    ];
    assert_eq!(evaluate_flag_with_reason("FF-dep", &flags, None), None);
    assert_eq!(evaluate_flag_with_reason("FF-free", &flags, None), Some((FlagReturn::Integer(5), "DEFAULT")));
    assert_eq!(evaluate_flag_with_reason("FF-none", &flags, None), None);
}

#[test]
fn readiness_answers() {
    assert_eq!(readiness(None), (200, None));
    assert_eq!(readiness(Some((true, 1))), (200, Some(RaftRole::Leader)));
    assert_eq!(readiness(Some((false, 2))), (200, Some(RaftRole::Follower)));
    assert_eq!(readiness(Some((false, 0))), (503, Some(RaftRole::Candidate)));
    assert_eq!(RaftRole::Follower.name(), "follower");
    assert_eq!(RaftRole::Candidate.name(), "candidate");
}

#[test]
fn multi_tenant_config_detection() {
    assert!(is_multi_tenant_config_text("[server]\nport = 1\n"));
    assert!(is_multi_tenant_config_text("[namespaces.team]\n"));
    assert!(is_multi_tenant_config_text("x\n[cluster]"));
    assert!(!is_multi_tenant_config_text("FF-a -> true\n"));
    assert!(!is_multi_tenant_config_text(""));
}

fn peer(id: u64) -> flagfile_cli::config::PeerConfig {
    flagfile_cli::config::PeerConfig { id, addr: format!("h{}:9090", id) }
}

#[test]
fn voter_ids_sorted_with_self() {
    assert_eq!(flagfile_cli::server::voter_ids(2, &vec![peer(3), peer(1)]), vec![1, 2, 3]);
    assert_eq!(flagfile_cli::server::voter_ids(3, &vec![peer(3), peer(1)]), vec![1, 3]);
    assert_eq!(flagfile_cli::server::voter_ids(7, &vec![]), vec![7]);
}

#[test]
fn raft_tick_values() {
    assert_eq!(flagfile_cli::server::raft_ticks(1000, 100), (10, 1));
    assert_eq!(flagfile_cli::server::raft_ticks(50, 0), (1, 1));
    assert_eq!(flagfile_cli::server::campaign_tick(13, false), 25);
    assert_eq!(flagfile_cli::server::campaign_tick(13, true), 0);
}
