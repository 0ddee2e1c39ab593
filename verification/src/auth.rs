//! Token checks for namespaced read and write access.
use vstd::prelude::*;
use crate::config::NamespaceConfig;
use crate::text::{chars_eq, chars_of, starts_with};

verus! {

/// The permission a request needs.
#[derive(Debug, Clone, Copy, PartialEq, Eq, Structural)]
pub enum TokenPermission {
    Read,
    Write,
}

/// `token` is one of `tokens`.
pub open spec fn listed(tokens: Seq<String>, token: Seq<char>) -> bool {
    exists|i: int| 0 <= i < tokens.len() && tokens[i]@ == token
}

/// Whether `token` grants `required` for a namespace: everything is allowed
/// when no tokens are configured; otherwise a token is needed, write tokens
/// grant writes, and read or write tokens grant reads.
pub open spec fn token_allows(
    ns: NamespaceConfig,
    token: Option<Seq<char>>,
    required: TokenPermission,
) -> bool {
    if ns.read_tokens@.len() == 0 && ns.write_tokens@.len() == 0 {
        true
    } else {
        match token {
            None => false,
            Some(t) => match required {
                TokenPermission::Write => listed(ns.write_tokens@, t),
                TokenPermission::Read => listed(ns.read_tokens@, t) || listed(ns.write_tokens@, t),
            },
        }
    }
}

fn is_listed(tokens: &Vec<String>, token: &[char]) -> (r: bool)
    ensures
        r == listed(tokens@, token@),
{
    let mut i: usize = 0;
    while i < tokens.len()
        invariant
            i <= tokens.len(),
            forall|m: int| 0 <= m < i ==> tokens@[m]@ != token@,
        decreases tokens.len() - i,
    {
        if chars_eq(&chars_of(tokens[i].as_str()), token) {
            return true;
        }
        i = i + 1;
    }
    false
}

/// Check if a token has the required permission for a namespace.
/// Write tokens implicitly grant read access; with no tokens configured
/// every request is allowed.
pub fn check_token(ns_config: &NamespaceConfig, token: Option<&str>, required: TokenPermission) -> (r:
    bool)
    ensures
        r == token_allows(
            *ns_config,
            match token {
                Some(t) => Some(t@),
                None => None,
            },
            required,
        ),
{
    if ns_config.read_tokens.len() == 0 && ns_config.write_tokens.len() == 0 {
        return true;
    }
    let t = match token {
        Some(t) => chars_of(t),
        None => {
            return false;
        },
    };
    match required {
        TokenPermission::Write => is_listed(&ns_config.write_tokens, &t),
        TokenPermission::Read => is_listed(&ns_config.read_tokens, &t) || is_listed(
            &ns_config.write_tokens,
            &t,
        ),
    }
}

/// Extract the bearer token from an `Authorization` header value: the text
/// after a leading `Bearer `.
pub fn extract_bearer_token(header_value: &str) -> (r: Option<&str>)
    ensures
        match r {
            Some(t) => starts_with(header_value@, "Bearer "@) && t@ == header_value@.subrange(
                7,
                header_value@.len() as int,
            ),
            None => !starts_with(header_value@, "Bearer "@),
        },
{
    let h = chars_of(header_value);
    let p = chars_of("Bearer ");
    proof {
        reveal_strlit("Bearer ");
    }
    if crate::text::starts_with_of(&h, &p) {
        let n = header_value.unicode_len();
        Some(header_value.substring_char(7, n))
    } else {
        None
    }
}

/// A token that may write to a namespace may also read from it.
pub proof fn law_write_grants_read(ns: NamespaceConfig, token: Option<Seq<char>>)
    ensures
        token_allows(ns, token, TokenPermission::Write) ==> token_allows(
            ns,
            token,
            TokenPermission::Read,
        ),
{
}

/// A namespace with no tokens configured allows every request, with or
/// without a token.
pub proof fn law_open_namespace(ns: NamespaceConfig, token: Option<Seq<char>>, required: TokenPermission)
    requires
        ns.read_tokens@.len() == 0,
        ns.write_tokens@.len() == 0,
    ensures
        token_allows(ns, token, required),
{
}

} // verus!
