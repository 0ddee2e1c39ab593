//! Remote (`[remote]`, `[launchdarkly]`) settings from `ff.toml` and the
//! precedence between command-line arguments, environment and file.
use vstd::prelude::*;
use crate::formatter::normalize::opt_view;
use crate::text::{chars_of, string_of};

verus! {

/// The `[remote]` section of `ff.toml`.
pub struct RemoteConfig {
    pub url: Option<String>,
    pub namespace: Option<String>,
    pub tokens: Option<RemoteTokens>,
}

/// Read and write tokens of the remote server.
pub struct RemoteTokens {
    pub read: Option<String>,
    pub write: Option<String>,
}

/// The `[launchdarkly]` section of `ff.toml`.
pub struct LaunchDarklyConfig {
    pub project_key: Option<String>,
    /// API access token.
    pub api_token: Option<String>,
    /// Override of the LaunchDarkly host.
    pub base_url: Option<String>,
    /// Context kind attached to every generated clause.
    pub context_kind: Option<String>,
    /// Flagfile `@env` name to LaunchDarkly environment key, in key order.
    pub environments: Vec<(String, String)>,
}

/// The view of an optional string slice.
pub open spec fn opt_str_view(o: Option<&str>) -> Option<Seq<char>> {
    match o {
        Some(s) => Some(s@),
        None => None,
    }
}

/// The first present value.
pub open spec fn first_some(a: Option<Seq<char>>, b: Option<Seq<char>>) -> Option<Seq<char>> {
    match a {
        Some(x) => Some(x),
        None => b,
    }
}

fn own(s: &str) -> (r: String)
    ensures
        r@ == s@,
{
    string_of(&chars_of(s))
}

fn clone_opt(o: &Option<String>) -> (r: Option<String>)
    ensures
        opt_view(r) == opt_view(*o),
{
    match o {
        Some(s) => Some(s.clone()),
        None => None,
    }
}

/// The write token configured under `[remote.tokens]`.
pub open spec fn config_write_token(config: RemoteConfig) -> Option<Seq<char>> {
    match config.tokens {
        Some(t) => opt_view(t.write),
        None => None,
    }
}

/// Resolve the remote URL from the command-line argument, else `ff.toml`.
pub fn resolve_remote_url(remote_arg: Option<&str>, config: &RemoteConfig) -> (r: Option<String>)
    ensures
        opt_view(r) == first_some(opt_str_view(remote_arg), opt_view(config.url)),
{
    match remote_arg {
        Some(a) => Some(own(a)),
        None => clone_opt(&config.url),
    }
}

/// Resolve the write token from the command-line argument, else the
/// `FF_WRITE_TOKEN` environment variable (`env_token`), else `ff.toml`.
pub fn resolve_write_token(
    secret_arg: Option<&str>,
    env_token: Option<String>,
    config: &RemoteConfig,
) -> (r: Option<String>)
    ensures
        opt_view(r) == first_some(
            opt_str_view(secret_arg),
            first_some(opt_view(env_token), config_write_token(*config)),
        ),
{
    match secret_arg {
        Some(a) => Some(own(a)),
        None => match env_token {
            Some(t) => Some(t),
            None => match &config.tokens {
                Some(t) => clone_opt(&t.write),
                None => None,
            },
        },
    }
}

/// Resolve the LaunchDarkly API token from the command-line argument, else
/// the `LAUNCHDARKLY_API_TOKEN` then `LD_API_TOKEN` environment variables,
/// else `ff.toml`.
pub fn resolve_token(
    secret_arg: Option<&str>,
    launchdarkly_env: Option<String>,
    ld_env: Option<String>,
    config: &LaunchDarklyConfig,
) -> (r: Option<String>)
    ensures
        opt_view(r) == first_some(
            opt_str_view(secret_arg),
            first_some(
                opt_view(launchdarkly_env),
                first_some(opt_view(ld_env), opt_view(config.api_token)),
            ),
        ),
{
    match secret_arg {
        Some(a) => Some(own(a)),
        None => match launchdarkly_env {
            Some(t) => Some(t),
            None => match ld_env {
                Some(t) => Some(t),
                None => clone_opt(&config.api_token),
            },
        },
    }
}

// ── Pushing to LaunchDarkly ────────────────────────────────────────

/// Why a push to LaunchDarkly stops before any request.
#[derive(Debug, Clone, Copy, PartialEq, Eq, Structural)]
pub enum PushRefusal {
    /// Neither `--project` nor `[launchdarkly] project_key`.
    NoProject,
    /// No API token from any source.
    NoToken,
    /// `[launchdarkly.environments]` maps no environment.
    NoEnvironments,
}

/// What a push to LaunchDarkly works with once its checks pass.
pub struct PushPlan {
    pub project_key: String,
    pub token: String,
    /// The API host, without trailing `/`.
    pub base_url: String,
    /// The LaunchDarkly environment to patch alone, if one was asked for.
    pub only_env: Option<String>,
}

/// The host used when `ff.toml` sets none.
pub open spec fn default_base_url() -> Seq<char> {
    "https://app.launchdarkly.com"@
}

/// `s` without its trailing `/` characters (`trim_end_matches('/')`).
pub open spec fn without_trailing_slashes(s: Seq<char>) -> Seq<char>
    decreases s.len(),
{
    if s.len() > 0 && s.last() == '/' {
        without_trailing_slashes(s.drop_last())
    } else {
        s
    }
}

/// The LaunchDarkly key mapped to the Flagfile environment `name`.
pub open spec fn mapped_env(envs: Seq<(String, String)>, name: Seq<char>) -> Option<Seq<char>>
    decreases envs.len(),
{
    if envs.len() == 0 {
        None
    } else if envs[0].0@ == name {
        Some(envs[0].1@)
    } else {
        mapped_env(envs.drop_first(), name)
    }
}

/// The environment `--env` selects: its mapped key, or the name itself
/// taken as a LaunchDarkly key.
pub open spec fn selected_env(envs: Seq<(String, String)>, env_arg: Option<Seq<char>>) -> Option<
    Seq<char>,
> {
    match env_arg {
        Some(n) => Some(
            match mapped_env(envs, n) {
                Some(k) => k,
                None => n,
            },
        ),
        None => None,
    }
}

/// The checks a push makes before any request, in order: a project key
/// (argument first, then `ff.toml`), an API token (already resolved, see
/// `resolve_token`), and at least one mapped environment.
pub open spec fn push_refusal(
    project_arg: Option<Seq<char>>,
    token: Option<Seq<char>>,
    config: LaunchDarklyConfig,
) -> Option<PushRefusal> {
    if first_some(project_arg, opt_view(config.project_key)) is None {
        Some(PushRefusal::NoProject)
    } else if token is None {
        Some(PushRefusal::NoToken)
    } else if config.environments@.len() == 0 {
        Some(PushRefusal::NoEnvironments)
    } else {
        None
    }
}

fn trim_trailing_slashes(s: &str) -> (r: String)
    ensures
        r@ == without_trailing_slashes(s@),
{
    let c = chars_of(s);
    let mut n = c.len();
    assert(c@.subrange(0, n as int) =~= c@);
    while n > 0 && c[n - 1] == '/'
        invariant
            n <= c@.len(),
            without_trailing_slashes(c@) == without_trailing_slashes(c@.subrange(0, n as int)),
        decreases n,
    {
        assert(c@.subrange(0, n as int).drop_last() =~= c@.subrange(0, n - 1));
        n = n - 1;
    }
    string_of(&crate::text::slice_of(&c, 0, n))
}

/// The key that `--env` selects (see `selected_env`).
fn select_env(envs: &Vec<(String, String)>, name: &str) -> (r: String)
    ensures
        Some(r@) == selected_env(envs@, Some(name@)),
{
    let mut i: usize = 0;
    assert(envs@.subrange(0, envs@.len() as int) =~= envs@);
    while i < envs.len()
        invariant
            i <= envs@.len(),
            mapped_env(envs@, name@) == mapped_env(envs@.subrange(i as int, envs@.len() as int), name@),
        decreases envs@.len() - i,
    {
        let ghost rest = envs@.subrange(i as int, envs@.len() as int);
        assert(rest[0] == envs@[i as int]);
        assert(rest.drop_first() =~= envs@.subrange(i + 1, envs@.len() as int));
        if crate::text::str_eq(envs[i].0.as_str(), name) {
            return own(envs[i].1.as_str());
        }
        i = i + 1;
    }
    own(name)
}

/// The checks a push to LaunchDarkly makes before it reads the Flagfile
/// (see `push_refusal`), and what it then works with: the project key,
/// the token, the host without trailing `/` (the default host when
/// `ff.toml` sets none), and the environment `--env` selects.
pub fn push_setup(
    project_arg: Option<&str>,
    env_arg: Option<&str>,
    token: Option<String>,
    config: &LaunchDarklyConfig,
) -> (r: Result<PushPlan, PushRefusal>)
    ensures
        match r {
            Err(e) => push_refusal(opt_str_view(project_arg), opt_view(token), *config) == Some(e),
            Ok(plan) => {
                &&& push_refusal(opt_str_view(project_arg), opt_view(token), *config) is None
                &&& Some(plan.project_key@) == first_some(
                    opt_str_view(project_arg),
                    opt_view(config.project_key),
                )
                &&& Some(plan.token@) == opt_view(token)
                &&& plan.base_url@ == without_trailing_slashes(
                    match config.base_url {
                        Some(u) => u@,
                        None => default_base_url(),
                    },
                )
                &&& opt_view(plan.only_env) == selected_env(
                    config.environments@,
                    opt_str_view(env_arg),
                )
            },
        },
{
    let project_key = match project_arg {
        Some(p) => own(p),
        None => match &config.project_key {
            Some(p) => p.clone(),
            None => {
                return Err(PushRefusal::NoProject);
            },
        },
    };
    let token = match token {
        Some(t) => t,
        None => {
            return Err(PushRefusal::NoToken);
        },
    };
    if config.environments.len() == 0 {
        return Err(PushRefusal::NoEnvironments);
    }
    let base_url = match &config.base_url {
        Some(u) => trim_trailing_slashes(u.as_str()),
        None => {
            let d = "https://app.launchdarkly.com";
            proof {
                assert(d@ == default_base_url());
            }
            trim_trailing_slashes(d)
        },
    };
    let only_env = match env_arg {
        Some(n) => Some(select_env(&config.environments, n)),
        None => None,
    };
    Ok(PushPlan { project_key, token, base_url, only_env })
}

/// What a push does for one flag.
#[derive(Debug, Clone, Copy, PartialEq, Eq, Structural)]
pub enum SyncAction {
    /// Create the flag, then patch its targeting with every environment on.
    Create,
    /// Patch the targeting of the existing flag, leaving `on` untouched.
    Update,
    /// Dry run: print the plan for creating the flag.
    PlanCreate,
    /// Dry run: print the plan for updating the flag.
    PlanUpdate,
}

/// The action for one flag, given whether LaunchDarkly already has it
/// (`present`) and
/// whether this is a dry run.
pub fn sync_action(present: bool, dry_run: bool) -> (r: SyncAction)
    ensures
        r == if present {
            if dry_run {
                SyncAction::PlanUpdate
            } else {
                SyncAction::Update
            }
        } else if dry_run {
            SyncAction::PlanCreate
        } else {
            SyncAction::Create
        },
{
    if present {
        if dry_run {
            SyncAction::PlanUpdate
        } else {
            SyncAction::Update
        }
    } else if dry_run {
        SyncAction::PlanCreate
    } else {
        SyncAction::Create
    }
}

/// The flag names asked for with `--flags`: trimmed, without empty ones,
/// each once, in the order first given.
pub open spec fn requested_names(filter: Seq<Seq<char>>) -> Seq<Seq<char>>
    decreases filter.len(),
{
    if filter.len() == 0 {
        Seq::empty()
    } else {
        let prev = requested_names(filter.drop_last());
        let t = crate::text::trim(filter.last());
        if t.len() == 0 || prev.contains(t) {
            prev
        } else {
            prev.push(t)
        }
    }
}

/// The flag names asked for with `--flags` (see `requested_names`).
pub fn requested_flags(filter: &Vec<String>) -> (r: Vec<String>)
    ensures
        crate::text::string_views(r@) == requested_names(crate::text::string_views(filter@)),
{
    let ghost fv = crate::text::string_views(filter@);
    let mut r: Vec<String> = Vec::new();
    let mut i: usize = 0;
    assert(fv.subrange(0, 0) =~= Seq::<Seq<char>>::empty());
    assert(crate::text::string_views(r@) =~= Seq::<Seq<char>>::empty());
    while i < filter.len()
        invariant
            i <= filter@.len(),
            fv == crate::text::string_views(filter@),
            crate::text::string_views(r@) == requested_names(fv.subrange(0, i as int)),
        decreases filter@.len() - i,
    {
        proof {
            assert(fv.subrange(0, i + 1).drop_last() =~= fv.subrange(0, i as int));
            assert(fv.subrange(0, i + 1).last() == filter@[i as int]@);
        }
        let t = crate::text::trim_of(&chars_of(filter[i].as_str()));
        let ts = string_of(&t);
        if t.len() > 0 && !crate::text::contains_str(&r, ts.as_str()) {
            let ghost before = crate::text::string_views(r@);
            r.push(ts);
            assert(crate::text::string_views(r@) =~= before.push(t@));
        }
        i = i + 1;
    }
    assert(fv.subrange(0, i as int) =~= fv);
    r
}

} // verus!
