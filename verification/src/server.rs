//! The decisions of the flag server's request handlers: which namespace a
//! request is for, whether it may read or write there, how a pushed
//! flagfile is stored, and what an evaluation answers.
use vstd::prelude::*;
use crate::ast::{flag_names, FlagDefinition, FlagReturn};
use crate::auth::{check_token, listed, token_allows, TokenPermission};
use crate::config::{namespaces_view, FfServerConfig, NamespaceConfig, PeerConfig};
use crate::evaluate::{copy_return, outcome_view};
use crate::text::{
    chars_of, clone_strings, contains, contains_of, int_decimal, int_text, lines, lines_of, opt_str, str_eq,
    string_of, string_views, trim, trim_of,
};
use crate::auth::extract_bearer_token;

verus! {

/// The key under which the root (unnamed) namespace is stored.
pub const ROOT_NAMESPACE: &'static str = "__root__";

/// What the access decisions of the server read from its shared state:
/// the configuration and whether it serves several namespaces.
pub struct AppState {
    pub config: FfServerConfig,
    pub multi_tenant: bool,
}

/// The first namespace called `name`, as its read and write tokens.
pub open spec fn first_ns(
    ns: Seq<(Seq<char>, Seq<Seq<char>>, Seq<Seq<char>>)>,
    name: Seq<char>,
) -> Option<(Seq<Seq<char>>, Seq<Seq<char>>)>
    decreases ns.len(),
{
    if ns.len() == 0 {
        None
    } else if ns[0].0 == name {
        Some((ns[0].1, ns[0].2))
    } else {
        first_ns(ns.drop_first(), name)
    }
}

/// The read and write tokens that govern the namespace `ns`: none at all in
/// single-tenant mode, the root configuration for the root namespace, the
/// configured namespace otherwise, and `None` for a namespace that is not
/// configured.
pub open spec fn namespace_tokens(st: AppState, ns: Seq<char>) -> Option<
    (Seq<Seq<char>>, Seq<Seq<char>>),
> {
    if !st.multi_tenant {
        Some((Seq::empty(), Seq::empty()))
    } else if ns == ROOT_NAMESPACE@ {
        Some((string_views(st.config.root.read_tokens@), string_views(st.config.root.write_tokens@)))
    } else {
        first_ns(namespaces_view(st.config.namespaces@), ns)
    }
}

/// Whether `token` grants `required`, given the read and write tokens of a
/// namespace (see `token_allows`).
pub open spec fn tokens_allow(
    read: Seq<Seq<char>>,
    write: Seq<Seq<char>>,
    token: Option<Seq<char>>,
    required: TokenPermission,
) -> bool {
    if read.len() == 0 && write.len() == 0 {
        true
    } else {
        match token {
            None => false,
            Some(t) => match required {
                TokenPermission::Write => write.contains(t),
                TokenPermission::Read => read.contains(t) || write.contains(t),
            },
        }
    }
}

/// The answer to a request's credentials.
#[derive(Debug, Clone, Copy, PartialEq, Eq, Structural)]
pub enum Access {
    /// The namespace is not configured (HTTP 403).
    Forbidden,
    /// The token does not grant the permission (HTTP 401).
    Unauthorized,
    Allowed,
}

/// The access decision for a request on namespace `ns`.
pub open spec fn request_access(
    st: AppState,
    ns: Seq<char>,
    token: Option<Seq<char>>,
    required: TokenPermission,
) -> Access {
    match namespace_tokens(st, ns) {
        None => Access::Forbidden,
        Some(t) => if tokens_allow(t.0, t.1, token, required) {
            Access::Allowed
        } else {
            Access::Unauthorized
        },
    }
}

proof fn lemma_listed_views(tokens: Seq<String>, t: Seq<char>)
    ensures
        listed(tokens, t) == string_views(tokens).contains(t),
{
    if listed(tokens, t) {
        let i = choose|i: int| 0 <= i < tokens.len() && tokens[i]@ == t;
        assert(string_views(tokens)[i] == t);
    }
    if string_views(tokens).contains(t) {
        let i = choose|i: int| 0 <= i < string_views(tokens).len() && string_views(tokens)[i] == t;
        assert(tokens[i]@ == t);
    }
}

/// A copy of a namespace's tokens.
fn copy_namespace_config(c: &NamespaceConfig) -> (r: NamespaceConfig)
    ensures
        string_views(r.read_tokens@) == string_views(c.read_tokens@),
        string_views(r.write_tokens@) == string_views(c.write_tokens@),
{
    NamespaceConfig {
        read_tokens: clone_strings(&c.read_tokens),
        write_tokens: clone_strings(&c.write_tokens),
    }
}

impl AppState {
    /// Get the namespace config for a given namespace key: a permissive
    /// default (no tokens) in single-tenant mode, the root config for
    /// `ROOT_NAMESPACE`, the named namespace's config otherwise, and `None`
    /// for an unconfigured namespace in multi-tenant mode.
    pub fn namespace_config(&self, namespace: &str) -> (r: Option<NamespaceConfig>)
        ensures
            match r {
                Some(c) => namespace_tokens(*self, namespace@) == Some(
                    (string_views(c.read_tokens@), string_views(c.write_tokens@)),
                ),
                None => namespace_tokens(*self, namespace@) is None,
            },
    {
        if !self.multi_tenant {
            let c = NamespaceConfig { read_tokens: Vec::new(), write_tokens: Vec::new() };
            assert(string_views(c.read_tokens@) =~= Seq::<Seq<char>>::empty());
            assert(string_views(c.write_tokens@) =~= Seq::<Seq<char>>::empty());
            return Some(c);
        }
        if str_eq(namespace, ROOT_NAMESPACE) {
            return Some(copy_namespace_config(&self.config.root));
        }
        let ns = &self.config.namespaces;
        let ghost nv = namespaces_view(ns@);
        let mut i: usize = 0;
        assert(nv.subrange(0, nv.len() as int) =~= nv);
        while i < ns.len()
            invariant
                i <= ns@.len(),
                nv == namespaces_view(ns@),
                ns@ == self.config.namespaces@,
                self.multi_tenant,
                namespace@ != ROOT_NAMESPACE@,
                first_ns(nv, namespace@) == first_ns(nv.subrange(i as int, nv.len() as int), namespace@),
            decreases ns@.len() - i,
        {
            let ghost rest = nv.subrange(i as int, nv.len() as int);
            proof {
                assert(rest[0] == nv[i as int]);
                assert(rest.drop_first() =~= nv.subrange(i + 1, nv.len() as int));
            }
            if str_eq(ns[i].0.as_str(), namespace) {
                proof {
                    assert(nv[i as int] == (
                        ns@[i as int].0@,
                        string_views(ns@[i as int].1.read_tokens@),
                        string_views(ns@[i as int].1.write_tokens@),
                    ));
                }
                return Some(copy_namespace_config(&ns[i].1));
            }
            i = i + 1;
        }
        None
    }

    /// Resolve the namespace key from a path parameter; `None` means the
    /// root namespace.
    pub fn resolve_namespace(ns_param: Option<&str>) -> (r: &str)
        ensures
            r@ == match ns_param {
                Some(p) => p@,
                None => ROOT_NAMESPACE@,
            },
    {
        match ns_param {
            Some(p) => p,
            None => ROOT_NAMESPACE,
        }
    }

    /// Decide whether a request with bearer `token` may have `required`
    /// access to `namespace` (see `request_access`).
    pub fn check_access(&self, namespace: &str, token: Option<&str>, required: TokenPermission) -> (r:
        Access)
        ensures
            r == request_access(*self, namespace@, opt_str(token), required),
    {
        match self.namespace_config(namespace) {
            None => Access::Forbidden,
            Some(c) => {
                let ok = check_token(&c, token, required);
                proof {
                    lemma_listed_views(c.read_tokens@, opt_str(token)->0);
                    lemma_listed_views(c.write_tokens@, opt_str(token)->0);
                    assert(ok == token_allows(c, opt_str(token), required));
                }
                if ok {
                    Access::Allowed
                } else {
                    Access::Unauthorized
                }
            },
        }
    }
}

/// In single-tenant mode authentication is disabled: every request on every
/// namespace is allowed, with or without a token.
pub proof fn law_single_tenant_open(
    st: AppState,
    ns: Seq<char>,
    token: Option<Seq<char>>,
    required: TokenPermission,
)
    requires
        !st.multi_tenant,
    ensures
        request_access(st, ns, token, required) == Access::Allowed,
{
}

/// In multi-tenant mode a request on a namespace other than the root that is
/// not configured is refused, whatever its token.
pub proof fn law_unconfigured_forbidden(
    st: AppState,
    ns: Seq<char>,
    token: Option<Seq<char>>,
    required: TokenPermission,
)
    requires
        st.multi_tenant,
        ns != ROOT_NAMESPACE@,
        forall|i: int|
            0 <= i < st.config.namespaces@.len() ==> #[trigger] st.config.namespaces@[i].0@ != ns,
    ensures
        request_access(st, ns, token, required) == Access::Forbidden,
{
    lemma_first_ns_missing(namespaces_view(st.config.namespaces@), ns);
}

proof fn lemma_first_ns_missing(ns: Seq<(Seq<char>, Seq<Seq<char>>, Seq<Seq<char>>)>, name: Seq<char>)
    requires
        forall|i: int| 0 <= i < ns.len() ==> #[trigger] ns[i].0 != name,
    ensures
        first_ns(ns, name) is None,
    decreases ns.len(),
{
    if ns.len() > 0 {
        assert forall|i: int| 0 <= i < ns.drop_first().len() implies #[trigger] ns.drop_first()[i].0
            != name by {
            assert(ns.drop_first()[i] == ns[i + 1]);
        }
        lemma_first_ns_missing(ns.drop_first(), name);
    }
}

/// The bearer token of a request, given its `Authorization` header value
/// when it has one that is valid text.
pub fn get_token(authorization: Option<&str>) -> (r: Option<String>)
    ensures
        match r {
            Some(t) => match authorization {
                Some(h) => crate::text::starts_with(h@, "Bearer "@) && t@ == h@.subrange(
                    7,
                    h@.len() as int,
                ),
                None => false,
            },
            None => match authorization {
                Some(h) => !crate::text::starts_with(h@, "Bearer "@),
                None => true,
            },
        },
{
    match authorization {
        Some(h) => match extract_bearer_token(h) {
            Some(t) => Some(string_of(&chars_of(t))),
            None => None,
        },
        None => None,
    }
}

// ── Pushing a flagfile ─────────────────────────────────────────────

/// The first line of what a parser left over, when anything but white space
/// is left.
pub open spec fn leftover_line(remainder: Seq<char>) -> Option<Seq<char>> {
    if trim(remainder).len() == 0 {
        None
    } else {
        Some(lines(trim(remainder))[0])
    }
}

/// The line near which parsing stopped: the first line of the trimmed
/// remainder, `None` when only white space is left.
pub fn unexpected_content(remainder: &str) -> (r: Option<String>)
    ensures
        opt_string_view(r) == leftover_line(remainder@),
{
    let t = trim_of(&chars_of(remainder));
    if t.len() == 0 {
        return None;
    }
    let ls = lines_of(&t);
    proof {
        assert(lines(t@) == crate::text::lines_from(t@, 0));
        assert(lines(t@).len() > 0);
    }
    Some(string_of(&ls[0]))
}

/// The view of an optional string.
pub open spec fn opt_string_view(o: Option<String>) -> Option<Seq<char>> {
    match o {
        Some(s) => Some(s@),
        None => None,
    }
}

/// The number of distinct names in `names`.
pub open spec fn distinct_count(names: Seq<Seq<char>>) -> nat
    decreases names.len(),
{
    if names.len() == 0 {
        0
    } else {
        distinct_count(names.drop_last()) + if names.drop_last().contains(names.last()) {
            0nat
        } else {
            1nat
        }
    }
}

/// The number of flags a pushed flagfile defines, a flag defined twice
/// counted once.
pub fn flags_count(flags: &Vec<(String, FlagDefinition)>) -> (r: u64)
    ensures
        r == distinct_count(flag_names(flags@)),
{
    let names = crate::ast::flag_name_list(flags);
    let ghost nv = string_views(names@);
    let mut n: u64 = 0;
    let mut i: usize = 0;
    while i < names.len()
        invariant
            i <= names@.len(),
            nv == string_views(names@),
            nv == flag_names(flags@),
            n == distinct_count(nv.subrange(0, i as int)),
            n <= i,
        decreases names@.len() - i,
    {
        let seen = crate::text::seen_before(&names, i, names[i].as_str());
        proof {
            let p = nv.subrange(0, i + 1);
            assert(p.drop_last() =~= nv.subrange(0, i as int));
            assert(p.last() == names@[i as int]@);
            assert(string_views(names@.subrange(0, i as int)) =~= nv.subrange(0, i as int));
        }
        if !seen {
            n = n + 1;
        }
        i = i + 1;
    }
    assert(nv.subrange(0, nv.len() as int) =~= nv);
    n
}

/// How a pushed flagfile is written.
#[derive(Debug, Clone, Copy, PartialEq, Eq, Structural)]
pub enum PutRoute {
    /// This node leads the cluster: propose the write through Raft.
    Propose,
    /// A follower that knows no leader yet (HTTP 503).
    NoLeader,
    /// A follower: forward the write to the leader with this id.
    Forward(u64),
    /// No cluster (or no transport to reach the leader): write directly.
    Direct,
}

/// The way a push is carried out, given the node's Raft role (whether it
/// leads, and the id of the leader it knows, 0 for none) when it runs in a
/// cluster, and whether a transport to other nodes is set up.
pub fn put_route(raft: Option<(bool, u64)>, has_transport: bool) -> (r: PutRoute)
    ensures
        r == match raft {
            None => PutRoute::Direct,
            Some((is_leader, leader_id)) => if is_leader {
                PutRoute::Propose
            } else if leader_id == 0 {
                PutRoute::NoLeader
            } else if has_transport {
                PutRoute::Forward(leader_id)
            } else {
                PutRoute::Direct
            },
        },
{
    match raft {
        None => PutRoute::Direct,
        Some((is_leader, leader_id)) => {
            if is_leader {
                PutRoute::Propose
            } else if leader_id == 0 {
                PutRoute::NoLeader
            } else if has_transport {
                PutRoute::Forward(leader_id)
            } else {
                PutRoute::Direct
            }
        },
    }
}

// ── Evaluation answers ─────────────────────────────────────────────

/// The text of a value as the plain-text evaluation output shows it.
pub open spec fn plain_text(val: FlagReturn) -> Seq<char> {
    match val {
        FlagReturn::OnOff(b) => if b {
            "true"@
        } else {
            "false"@
        },
        FlagReturn::Integer(n) => int_decimal(n as int),
        FlagReturn::Str(s) => s@,
        FlagReturn::Json(j) => j@,
    }
}

/// The value of a flag as plain text (`ff_output=plain`).
pub fn plain_value(val: &FlagReturn) -> (r: String)
    ensures
        r@ == plain_text(*val),
{
    match val {
        FlagReturn::OnOff(b) => if *b {
            string_of(&chars_of("true"))
        } else {
            string_of(&chars_of("false"))
        },
        FlagReturn::Integer(n) => int_text(*n),
        FlagReturn::Str(s) => string_of(&chars_of(s.as_str())),
        FlagReturn::Json(j) => string_of(&chars_of(j.as_str())),
    }
}

/// The status code and plain-text body of an evaluation request with
/// `ff_output=plain`, once its namespace is found: 404 `flag not found` for
/// an unknown flag, 422 `no rule matched` when no value came out, and 200
/// with the value's text otherwise.
pub fn eval_plain_answer(flag_known: bool, result: &Option<(FlagReturn, &str)>) -> (r: (u16, String))
    ensures
        !flag_known ==> r.0 == 404 && r.1@ == "flag not found"@,
        flag_known ==> match outcome_view(*result) {
            Some((v, _)) => r.0 == 200 && r.1@ == plain_text(v),
            None => r.0 == 422 && r.1@ == "no rule matched"@,
        },
{
    if !flag_known {
        return (404, string_of(&chars_of("flag not found")));
    }
    match result {
        Some((v, _)) => (200, plain_value(v)),
        None => (422, string_of(&chars_of("no rule matched"))),
    }
}

/// A successful OpenFeature remote evaluation (its metadata is always an
/// empty object).
pub struct OFREPEvalSuccess {
    pub key: String,
    pub reason: String,
    pub variant: String,
    pub value: FlagReturn,
}

/// The variant name OpenFeature reports for a value.
pub open spec fn variant_text(val: FlagReturn) -> Seq<char> {
    match val {
        FlagReturn::Json(_) => "json"@,
        _ => plain_text(val),
    }
}

/// The OpenFeature answer for `key` with the value `ret` chosen for `reason`.
pub fn flag_return_to_ofrep(key: &str, ret: &FlagReturn, reason: &str) -> (r: OFREPEvalSuccess)
    ensures
        r.key@ == key@,
        r.reason@ == reason@,
        r.variant@ == variant_text(*ret),
        r.value == *ret,
{
    let variant = match ret {
        FlagReturn::Json(_) => string_of(&chars_of("json")),
        _ => plain_value(ret),
    };
    OFREPEvalSuccess {
        key: string_of(&chars_of(key)),
        reason: string_of(&chars_of(reason)),
        variant,
        value: copy_return(ret),
    }
}

/// The OpenFeature answer for `key` given its evaluation: the value and its
/// reason, or `false` for reason `DEFAULT` when no value came out.
pub fn ofrep_answer(key: &str, result: Option<(FlagReturn, &str)>) -> (r: OFREPEvalSuccess)
    ensures
        r.key@ == key@,
        match outcome_view(result) {
            Some((v, why)) => r.reason@ == why && r.variant@ == variant_text(v) && r.value == v,
            None => r.reason@ == "DEFAULT"@ && r.variant@ == "false"@ && r.value
                == FlagReturn::OnOff(false),
        },
{
    match result {
        Some((ret, reason)) => flag_return_to_ofrep(key, &ret, reason),
        None => OFREPEvalSuccess {
            key: string_of(&chars_of(key)),
            reason: string_of(&chars_of("DEFAULT")),
            variant: string_of(&chars_of("false")),
            value: FlagReturn::OnOff(false),
        },
    }
}

// ── Readiness and mode ─────────────────────────────────────────────

/// The Raft role a node reports.
#[derive(Debug, Clone, Copy, PartialEq, Eq, Structural)]
pub enum RaftRole {
    Leader,
    Follower,
    Candidate,
}

impl RaftRole {
    /// The name the readiness endpoint reports.
    pub fn name(&self) -> (r: &'static str)
        ensures
            r@ == match *self {
                RaftRole::Leader => "leader"@,
                RaftRole::Follower => "follower"@,
                RaftRole::Candidate => "candidate"@,
            },
    {
        match self {
            RaftRole::Leader => "leader",
            RaftRole::Follower => "follower",
            RaftRole::Candidate => "candidate",
        }
    }
}

/// The readiness answer of a node: its status code, and its Raft role when
/// it runs in a cluster. A clustered node is ready (200) once it knows a
/// leader and unavailable (503) before; a standalone node is always ready.
pub fn readiness(raft: Option<(bool, u64)>) -> (r: (u16, Option<RaftRole>))
    ensures
        match raft {
            None => r == (200u16, Option::<RaftRole>::None),
            Some((is_leader, leader_id)) => {
                &&& r.1 == Some(
                    if is_leader {
                        RaftRole::Leader
                    } else if leader_id > 0 {
                        RaftRole::Follower
                    } else {
                        RaftRole::Candidate
                    },
                )
                &&& r.0 == if leader_id == 0 {
                    503u16
                } else {
                    200u16
                }
            },
        },
{
    match raft {
        None => (200, None),
        Some((is_leader, leader_id)) => {
            let role = if is_leader {
                RaftRole::Leader
            } else if leader_id > 0 {
                RaftRole::Follower
            } else {
                RaftRole::Candidate
            };
            if leader_id == 0 {
                (503, Some(role))
            } else {
                (200, Some(role))
            }
        },
    }
}

/// A configuration file's text sets up a multi-tenant server when it has a
/// `[server]`, `[root]`, `[namespaces` or `[cluster]` section.
pub open spec fn multi_tenant_text(content: Seq<char>) -> bool {
    contains(content, "[server]"@) || contains(content, "[root]"@) || contains(
        content,
        "[namespaces"@,
    ) || contains(content, "[cluster]"@)
}

/// Whether the text of the configuration file asks for multi-tenant mode
/// (see `multi_tenant_text`).
pub fn is_multi_tenant_config_text(content: &str) -> (r: bool)
    ensures
        r == multi_tenant_text(content@),
{
    let c = chars_of(content);
    contains_of(&c, &chars_of("[server]")) || contains_of(&c, &chars_of("[root]")) || contains_of(
        &c,
        &chars_of("[namespaces"),
    ) || contains_of(&c, &chars_of("[cluster]"))
}

// ── Cluster start-up ───────────────────────────────────────────────

/// The ids of the peers, in order.
pub open spec fn peer_ids(peers: Seq<PeerConfig>) -> Seq<u64> {
    peers.map_values(|p: PeerConfig| p.id)
}

/// The voters of a cluster: its peers, and this node unless it is listed
/// among them.
pub open spec fn voters(node_id: u64, peers: Seq<PeerConfig>) -> Seq<u64> {
    if peer_ids(peers).contains(node_id) {
        peer_ids(peers)
    } else {
        peer_ids(peers).push(node_id)
    }
}

/// The voter ids a clustered node starts its log with: the peers' ids and
/// its own, in ascending order (see `voters`).
pub fn voter_ids(node_id: u64, peers: &Vec<PeerConfig>) -> (r: Vec<u64>)
    ensures
        forall|i: int, j: int| 0 <= i < j < r@.len() ==> r@[i] <= r@[j],
        r@.to_multiset() == voters(node_id, peers@).to_multiset(),
{
    let ghost pv = peer_ids(peers@);
    let mut ids: Vec<u64> = Vec::new();
    let mut k: usize = 0;
    let mut own = false;
    while k < peers.len()
        invariant
            k <= peers@.len(),
            pv == peer_ids(peers@),
            ids@ == pv.subrange(0, k as int),
            own == pv.subrange(0, k as int).contains(node_id),
        decreases peers@.len() - k,
    {
        let ghost pre = pv.subrange(0, k as int);
        proof {
            assert(pv.subrange(0, k + 1) =~= pre.push(peers@[k as int].id));
            assert(pre.push(peers@[k as int].id)[k as int] == peers@[k as int].id);
            assert forall|y: u64| pre.push(peers@[k as int].id).contains(y) <==> (pre.contains(y)
                || y == peers@[k as int].id) by {
                if pre.push(peers@[k as int].id).contains(y) {
                    let i = choose|i: int| 0 <= i < k + 1 && pre.push(peers@[k as int].id)[i] == y;
                    if i < k {
                        assert(pre[i] == y);
                    }
                }
                if pre.contains(y) {
                    let i = choose|i: int| 0 <= i < pre.len() && pre[i] == y;
                    assert(pre.push(peers@[k as int].id)[i] == y);
                }
            }
        }
        if peers[k].id == node_id {
            own = true;
        }
        ids.push(peers[k].id);
        k = k + 1;
    }
    assert(pv.subrange(0, k as int) =~= pv);
    if !own {
        ids.push(node_id);
    }
    let ghost all = ids@;
    assert(all == voters(node_id, peers@));
    let mut out: Vec<u64> = Vec::new();
    let mut n: usize = 0;
    assert(all.subrange(0, 0) =~= Seq::<u64>::empty());
    while n < ids.len()
        invariant
            n <= ids@.len(),
            all == ids@,
            forall|i: int, j: int| 0 <= i < j < out@.len() ==> out@[i] <= out@[j],
            out@.to_multiset() == all.subrange(0, n as int).to_multiset(),
        decreases ids@.len() - n,
    {
        let x = ids[n];
        let mut p: usize = 0;
        while p < out.len() && out[p] <= x
            invariant
                p <= out@.len(),
                forall|m: int| 0 <= m < p ==> out@[m] <= x,
            decreases out@.len() - p,
        {
            p = p + 1;
        }
        let ghost before = out@;
        out.insert(p, x);
        proof {
            assert(out@ =~= before.subrange(0, p as int) + seq![x] + before.subrange(
                p as int,
                before.len() as int,
            ));
            assert(before =~= before.subrange(0, p as int) + before.subrange(
                p as int,
                before.len() as int,
            ));
            vstd::seq_lib::lemma_multiset_commutative(
                before.subrange(0, p as int) + seq![x],
                before.subrange(p as int, before.len() as int),
            );
            vstd::seq_lib::lemma_multiset_commutative(before.subrange(0, p as int), seq![x]);
            vstd::seq_lib::lemma_multiset_commutative(
                before.subrange(0, p as int),
                before.subrange(p as int, before.len() as int),
            );
            vstd::seq_lib::lemma_multiset_commutative(all.subrange(0, n as int), seq![x]);
            assert(all.subrange(0, n + 1) =~= all.subrange(0, n as int) + seq![x]);
            assert(out@.to_multiset() =~= before.to_multiset().add(seq![x].to_multiset()));
            assert forall|i: int, j: int| 0 <= i < j < out@.len() implies out@[i] <= out@[j] by {
                if j < p {
                    assert(out@[i] == before[i] && out@[j] == before[j]);
                } else if j == p {
                    assert(out@[i] == before[i]);
                } else if i < p {
                    assert(out@[i] == before[i] && out@[j] == before[j - 1]);
                    assert(!(before[p as int] <= x));
                } else if i == p {
                    assert(out@[j] == before[j - 1]);
                    assert(!(before[p as int] <= x));
                } else {
                    assert(out@[i] == before[i - 1] && out@[j] == before[j - 1]);
                }
            }
        }
        n = n + 1;
    }
    assert(all.subrange(0, n as int) =~= all);
    out
}

/// Election and heartbeat timeouts in ticks of 100 ms, each at least one.
pub fn raft_ticks(election_timeout_ms: u64, heartbeat_interval_ms: u64) -> (r: (u64, u64))
    ensures
        r.0 == if election_timeout_ms / 100 >= 1 {
            election_timeout_ms / 100
        } else {
            1
        },
        r.1 == if heartbeat_interval_ms / 100 >= 1 {
            heartbeat_interval_ms / 100
        } else {
            1
        },
{
    let e = election_timeout_ms / 100;
    let h = heartbeat_interval_ms / 100;
    (if e >= 1 { e } else { 1 }, if h >= 1 { h } else { 1 })
}

/// The tick at which a node of a cluster with peers starts its first
/// election, staggered by node id so that nodes do not split the vote; a
/// node alone elects itself at once (tick 0).
pub fn campaign_tick(node_id: u64, single_node: bool) -> (r: u64)
    ensures
        r == if single_node {
            0
        } else {
            10 + (node_id % 10) * 5
        },
{
    if single_node {
        0
    } else {
        10 + (node_id % 10) * 5
    }
}

} // verus!
