use flagfile_cli::auth::{check_token, extract_bearer_token, TokenPermission};
use flagfile_cli::config::NamespaceConfig;

fn ns(read: &[&str], write: &[&str]) -> NamespaceConfig {
    NamespaceConfig {
        read_tokens: read.iter().map(|s| s.to_string()).collect(),
        write_tokens: write.iter().map(|s| s.to_string()).collect(),
    }
}

#[test]
fn no_tokens_allows_everything() {
    let n = ns(&[], &[]);
    assert!(check_token(&n, None, TokenPermission::Read));
    assert!(check_token(&n, None, TokenPermission::Write));
    assert!(check_token(&n, Some("anything"), TokenPermission::Write));
}

#[test]
fn write_token_grants_read() {
    let n = ns(&["r"], &["w"]);
    assert!(check_token(&n, Some("w"), TokenPermission::Write));
    assert!(check_token(&n, Some("w"), TokenPermission::Read));
    assert!(check_token(&n, Some("r"), TokenPermission::Read));
    assert!(!check_token(&n, Some("r"), TokenPermission::Write));
    assert!(!check_token(&n, Some("x"), TokenPermission::Read));
    assert!(!check_token(&n, None, TokenPermission::Read));
}

#[test]
fn bearer_token_extracted() {
    assert_eq!(extract_bearer_token("Bearer abc"), Some("abc"));
    assert_eq!(extract_bearer_token("Bearer "), Some(""));
    assert_eq!(extract_bearer_token("bearer abc"), None);
    assert_eq!(extract_bearer_token("Basic abc"), None);
}
