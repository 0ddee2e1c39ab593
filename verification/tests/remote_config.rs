use flagfile_cli::remote::{
    push_setup, resolve_remote_url, resolve_token, resolve_write_token, sync_action,
    LaunchDarklyConfig, PushRefusal, RemoteConfig, RemoteTokens, SyncAction,
};

fn remote(url: Option<&str>, write: Option<&str>) -> RemoteConfig {
    RemoteConfig {
        url: url.map(|s| s.to_string()),
        namespace: None,
        tokens: Some(RemoteTokens { read: None, write: write.map(|s| s.to_string()) }),
    }
}

#[test]
fn remote_url_argument_first() {
    let c = remote(Some("http://cfg"), None);
    assert_eq!(resolve_remote_url(Some("http://arg"), &c), Some("http://arg".to_string()));
    assert_eq!(resolve_remote_url(None, &c), Some("http://cfg".to_string()));
    assert_eq!(resolve_remote_url(None, &remote(None, None)), None);
}

#[test]
fn write_token_precedence() {
    let c = remote(None, Some("from-file"));
    assert_eq!(resolve_write_token(Some("arg"), Some("env".to_string()), &c), Some("arg".to_string()));
    assert_eq!(resolve_write_token(None, Some("env".to_string()), &c), Some("env".to_string()));
    assert_eq!(resolve_write_token(None, None, &c), Some("from-file".to_string()));
    let none = RemoteConfig { url: None, namespace: None, tokens: None };
    assert_eq!(resolve_write_token(None, None, &none), None);
}

#[test]
fn launchdarkly_token_precedence() {
    let c = LaunchDarklyConfig {
        project_key: None,
        api_token: Some("file".to_string()),
        base_url: None,
        context_kind: None,
        environments: vec![],
    };
    assert_eq!(resolve_token(None, Some("a".to_string()), Some("b".to_string()), &c), Some("a".to_string()));
    assert_eq!(resolve_token(None, None, Some("b".to_string()), &c), Some("b".to_string()));
    assert_eq!(resolve_token(None, None, None, &c), Some("file".to_string()));
    assert_eq!(resolve_token(Some("s"), None, None, &c), Some("s".to_string()));
}

fn ld(project: Option<&str>, base: Option<&str>, envs: &[(&str, &str)]) -> LaunchDarklyConfig {
    LaunchDarklyConfig {
        project_key: project.map(|s| s.to_string()),
        api_token: None,
        base_url: base.map(|s| s.to_string()),
        context_kind: None,
        environments: envs.iter().map(|(a, b)| (a.to_string(), b.to_string())).collect(),
    }
}

#[test]
fn push_setup_refusals_in_order() {
    let none = ld(None, None, &[]);
    assert_eq!(push_setup(None, None, Some("t".to_string()), &none).err(), Some(PushRefusal::NoProject));
    assert_eq!(push_setup(Some("p"), None, None, &none).err(), Some(PushRefusal::NoToken));
    assert_eq!(push_setup(Some("p"), None, Some("t".to_string()), &none).err(), Some(PushRefusal::NoEnvironments));
}

#[test]
fn push_setup_plan() {
    let c = ld(Some("proj"), Some("https://ld.example//"), &[("dev", "test"), ("prod", "production")]);
    let plan = push_setup(None, Some("prod"), Some("tok".to_string()), &c).ok().unwrap();
    assert_eq!(plan.project_key, "proj");
    assert_eq!(plan.token, "tok");
    assert_eq!(plan.base_url, "https://ld.example");
    assert_eq!(plan.only_env, Some("production".to_string()));
    let plan2 = push_setup(Some("other"), Some("staging"), Some("tok".to_string()), &ld(None, None, &[("dev", "test")]))
        .ok()
        .unwrap();
    assert_eq!(plan2.project_key, "other");
    assert_eq!(plan2.base_url, "https://app.launchdarkly.com");
    assert_eq!(plan2.only_env, Some("staging".to_string()));
    let plan3 = push_setup(Some("p"), None, Some("t".to_string()), &c).ok().unwrap();
    assert_eq!(plan3.only_env, None);
}

#[test]
fn sync_actions() {
    assert_eq!(sync_action(true, false), SyncAction::Update);
    assert_eq!(sync_action(false, false), SyncAction::Create);
    assert_eq!(sync_action(true, true), SyncAction::PlanUpdate);
    assert_eq!(sync_action(false, true), SyncAction::PlanCreate);
}

#[test]
fn requested_flags_trimmed_once() {
    let f: Vec<String> = [" FF-a", "", "FF-b ", "FF-a", "   "].iter().map(|s| s.to_string()).collect();
    assert_eq!(flagfile_cli::remote::requested_flags(&f), vec!["FF-a".to_string(), "FF-b".to_string()]);
}
