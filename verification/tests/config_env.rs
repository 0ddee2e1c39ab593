use flagfile_cli::config::{
    parse_peers, parse_token_list, ClusterConfig, FfServerConfig, NamespaceConfig, StorageBackend,
};

fn vars(v: &[(&str, &str)]) -> Vec<(String, String)> {
    v.iter().map(|(a, b)| (a.to_string(), b.to_string())).collect()
}

#[test]
fn env_storage_override_any_case() {
    let mut c = FfServerConfig::default();
    let unknown = c.apply_env_overrides(&vars(&[("FF_STORAGE", "MeMoRy")]));
    assert_eq!(c.server.storage, StorageBackend::Memory);
    assert!(unknown.is_none());
}

#[test]
fn env_unknown_storage_reported_and_ignored() {
    let mut c = FfServerConfig::default();
    let unknown = c.apply_env_overrides(&vars(&[("FF_STORAGE", "Redis")]));
    assert_eq!(c.server.storage, StorageBackend::Sled);
    assert_eq!(unknown, Some("redis".to_string()));
}

#[test]
fn env_node_id_creates_cluster_with_defaults() {
    let mut c = FfServerConfig::default();
    c.apply_env_overrides(&vars(&[("FF_NODE_ID", "3"), ("FF_GRPC_PORT", "7000"), ("FF_PEERS", "1:a:9090, 2:b:9091,,bad,x:y")]));
    let cl = c.cluster.as_ref().unwrap();
    assert_eq!(cl.node_id, 3);
    assert_eq!(cl.grpc_port, 7000);
    assert_eq!(cl.election_timeout_ms, 1000);
    assert_eq!(cl.heartbeat_interval_ms, 300);
    assert_eq!(cl.snapshot_threshold, 1000);
    let peers: Vec<(u64, String)> = cl.peers.iter().map(|p| (p.id, p.addr.clone())).collect();
    assert_eq!(peers, vec![(1, "a:9090".to_string()), (2, "b:9091".to_string())]);
}

#[test]
fn env_port_and_peers_need_cluster() {
    let mut c = FfServerConfig::default();
    c.apply_env_overrides(&vars(&[("FF_GRPC_PORT", "7000"), ("FF_PEERS", "1:a:1")]));
    assert!(c.cluster.is_none());
}

#[test]
fn env_bad_numbers_ignored() {
    let mut c = FfServerConfig::default();
    c.cluster = Some(ClusterConfig {
        node_id: 1,
        grpc_port: 9090,
        peers: vec![],
        election_timeout_ms: 5,
        heartbeat_interval_ms: 6,
        snapshot_threshold: 7,
    });
    c.apply_env_overrides(&vars(&[("FF_NODE_ID", "-2"), ("FF_GRPC_PORT", "70000")]));
    let cl = c.cluster.as_ref().unwrap();
    assert_eq!(cl.node_id, 1);
    assert_eq!(cl.grpc_port, 9090);
    assert_eq!(cl.election_timeout_ms, 5);
}

#[test]
fn env_root_and_namespace_tokens() {
    let mut c = FfServerConfig::default();
    c.namespaces.push(("team".to_string(), NamespaceConfig { read_tokens: vec!["old".to_string()], write_tokens: vec!["w".to_string()] }));
    c.apply_env_overrides(&vars(&[
        ("FF_ROOT_READ_TOKENS", " r1 , ,r2"),
        ("FF_ROOT_WRITE_TOKENS", "w1"),
        ("FF_NS_TEAM_READ_TOKENS", "t1,t2"),
        ("FF_NS_Other_WRITE_TOKENS", "o1"),
        ("FF_NS_READ_TOKENS", "ignored"),
    ]));
    assert_eq!(c.root.read_tokens, vec!["r1".to_string(), "r2".to_string()]);
    assert_eq!(c.root.write_tokens, vec!["w1".to_string()]);
    assert_eq!(c.namespaces.len(), 2);
    assert_eq!(c.namespaces[0].0, "team");
    assert_eq!(c.namespaces[0].1.read_tokens, vec!["t1".to_string(), "t2".to_string()]);
    assert_eq!(c.namespaces[0].1.write_tokens, vec!["w".to_string()]);
    assert_eq!(c.namespaces[1].0, "other");
    assert!(c.namespaces[1].1.read_tokens.is_empty());
    assert_eq!(c.namespaces[1].1.write_tokens, vec!["o1".to_string()]);
}

#[test]
fn token_list_and_peer_parsing() {
    assert_eq!(parse_token_list(""), Vec::<String>::new());
    assert_eq!(parse_token_list(" a,b ,, c "), vec!["a".to_string(), "b".to_string(), "c".to_string()]);
    let peers: Vec<(u64, String)> = parse_peers("+4:h:1").iter().map(|p| (p.id, p.addr.clone())).collect();
    assert_eq!(peers, vec![(4, "h:1".to_string())]);
}
