//! Server configuration (`ff-server.toml`), its defaults, and the
//! environment-variable overrides.
use vstd::prelude::*;
use crate::num::{parse_unsigned_of, unsigned_value};
use crate::text::{
    chars_of, ends_with, ends_with_of, find_char, find_char_of, is_first_occ,
    lower_text, occurs_at, slice_of, starts_with, starts_with_of, str_eq, string_of, string_views,
    to_lower, trim, trim_of,
};

verus! {

/// Top-level server configuration.
pub struct FfServerConfig {
    pub server: ServerConfig,
    pub cluster: Option<ClusterConfig>,
    pub root: NamespaceConfig,
    /// Per-namespace token configuration, each name at most once.
    pub namespaces: Vec<(String, NamespaceConfig)>,
}

/// The `[server]` section.
pub struct ServerConfig {
    pub port: u16,
    pub hostname: String,
    pub data_dir: String,
    pub storage: StorageBackend,
}

/// Where flagfiles are stored.
#[derive(Debug, Clone, Copy, PartialEq, Eq, Structural)]
pub enum StorageBackend {
    Sled,
    Memory,
}

/// The `[cluster]` section.
pub struct ClusterConfig {
    pub node_id: u64,
    pub grpc_port: u16,
    pub peers: Vec<PeerConfig>,
    pub election_timeout_ms: u64,
    pub heartbeat_interval_ms: u64,
    pub snapshot_threshold: u64,
}

/// A cluster peer.
pub struct PeerConfig {
    pub id: u64,
    pub addr: String,
}

/// Access tokens of one namespace.
pub struct NamespaceConfig {
    pub read_tokens: Vec<String>,
    pub write_tokens: Vec<String>,
}

/// The sidecar's upstream settings.
pub struct SidecarConfig {
    pub upstream: Option<String>,
    pub token: Option<String>,
    pub namespace: Option<String>,
}

pub fn default_port() -> (r: u16)
    ensures
        r == 8080,
{
    8080
}

pub fn default_hostname() -> (r: String)
    ensures
        r@ == "0.0.0.0"@,
{
    crate::text::string_of(&crate::text::chars_of("0.0.0.0"))
}

pub fn default_data_dir() -> (r: String)
    ensures
        r@ == "./data"@,
{
    crate::text::string_of(&crate::text::chars_of("./data"))
}

pub fn default_storage() -> (r: StorageBackend)
    ensures
        r == StorageBackend::Sled,
{
    StorageBackend::Sled
}

pub fn default_grpc_port() -> (r: u16)
    ensures
        r == 9090,
{
    9090
}

pub fn default_election_timeout() -> (r: u64)
    ensures
        r == 1000,
{
    1000
}

pub fn default_heartbeat_interval() -> (r: u64)
    ensures
        r == 300,
{
    300
}

pub fn default_snapshot_threshold() -> (r: u64)
    ensures
        r == 1000,
{
    1000
}

impl Default for ServerConfig {
    fn default() -> (r: Self)
        ensures
            r.port == 8080,
            r.hostname@ == "0.0.0.0"@,
            r.data_dir@ == "./data"@,
            r.storage == StorageBackend::Sled,
    {
        ServerConfig {
            port: default_port(),
            hostname: default_hostname(),
            data_dir: default_data_dir(),
            storage: default_storage(),
        }
    }
}

impl Default for NamespaceConfig {
    fn default() -> (r: Self)
        ensures
            r.read_tokens@.len() == 0,
            r.write_tokens@.len() == 0,
    {
        NamespaceConfig { read_tokens: Vec::new(), write_tokens: Vec::new() }
    }
}

impl Default for FfServerConfig {
    fn default() -> (r: Self)
        ensures
            r.server.port == 8080,
            r.server.hostname@ == "0.0.0.0"@,
            r.server.data_dir@ == "./data"@,
            r.server.storage == StorageBackend::Sled,
            r.cluster is None,
            r.root.read_tokens@.len() == 0,
            r.root.write_tokens@.len() == 0,
            r.namespaces@.len() == 0,
    {
        FfServerConfig {
            server: ServerConfig::default(),
            cluster: None,
            root: NamespaceConfig::default(),
            namespaces: Vec::new(),
        }
    }
}

// ── Environment overrides ──────────────────────────────────────────

/// `str::split(c)`: the pieces of `s` between occurrences of `c`, scanning
/// from index `i` with the current piece starting at `start`.
pub open spec fn split_from(s: Seq<char>, c: char, i: int, start: int, acc: Seq<Seq<char>>) -> Seq<
    Seq<char>,
>
    decreases s.len() - i,
{
    if i < 0 || i >= s.len() {
        acc.push(s.subrange(start, s.len() as int))
    } else if s[i] == c {
        split_from(s, c, i + 1, i + 1, acc.push(s.subrange(start, i)))
    } else {
        split_from(s, c, i + 1, start, acc)
    }
}

/// `str::split(c)`.
pub open spec fn pieces(s: Seq<char>, c: char) -> Seq<Seq<char>> {
    split_from(s, c, 0, 0, Seq::empty())
}

/// The pieces of `s` separated by `c`.
pub fn split_chars(s: &[char], c: char) -> (r: Vec<Vec<char>>)
    ensures
        crate::text::views(r@) == pieces(s@, c),
{
    let mut r: Vec<Vec<char>> = Vec::new();
    let mut start: usize = 0;
    let mut i: usize = 0;
    assert(crate::text::views(r@) =~= Seq::<Seq<char>>::empty());
    while i < s.len()
        invariant
            start <= i <= s.len(),
            pieces(s@, c) == split_from(s@, c, i as int, start as int, crate::text::views(r@)),
        decreases s.len() - i,
    {
        if s[i] == c {
            let ghost before = crate::text::views(r@);
            let piece = slice_of(s, start, i);
            r.push(piece);
            assert(crate::text::views(r@) =~= before.push(s@.subrange(start as int, i as int)));
            start = i + 1;
        }
        i = i + 1;
    }
    let ghost before = crate::text::views(r@);
    r.push(slice_of(s, start, s.len()));
    assert(crate::text::views(r@) =~= before.push(s@.subrange(start as int, s@.len() as int)));
    r
}

/// The trimmed, non-empty parts of a comma-separated list of parts.
pub open spec fn nonempty_trimmed(ps: Seq<Seq<char>>) -> Seq<Seq<char>>
    decreases ps.len(),
{
    if ps.len() == 0 {
        Seq::empty()
    } else {
        nonempty_trimmed(ps.drop_last()) + if trim(ps.last()).len() > 0 {
            seq![trim(ps.last())]
        } else {
            Seq::empty()
        }
    }
}

/// A comma-separated token list: each token trimmed, empty ones dropped.
pub open spec fn token_list(v: Seq<char>) -> Seq<Seq<char>> {
    nonempty_trimmed(pieces(v, ','))
}

/// The tokens of a comma-separated list (see `token_list`).
pub fn parse_token_list(v: &str) -> (r: Vec<String>)
    ensures
        string_views(r@) == token_list(v@),
{
    let ps = split_chars(&chars_of(v), ',');
    let mut r: Vec<String> = Vec::new();
    let mut i: usize = 0;
    assert(string_views(r@) =~= Seq::<Seq<char>>::empty());
    while i < ps.len()
        invariant
            i <= ps@.len(),
            crate::text::views(ps@) == pieces(v@, ','),
            string_views(r@) == nonempty_trimmed(crate::text::views(ps@).subrange(0, i as int)),
        decreases ps@.len() - i,
    {
        let ghost vs = crate::text::views(ps@);
        proof {
            assert(vs.subrange(0, i + 1).drop_last() =~= vs.subrange(0, i as int));
            assert(vs.subrange(0, i + 1).last() == ps@[i as int]@);
        }
        let t = trim_of(&ps[i]);
        if t.len() > 0 {
            let ghost before = string_views(r@);
            r.push(string_of(&t));
            assert(string_views(r@) =~= before.push(t@));
        }
        i = i + 1;
    }
    assert(crate::text::views(ps@).subrange(0, i as int) =~= crate::text::views(ps@));
    r
}

/// One `id:addr` peer entry, already trimmed and non-empty: the id must
/// parse as a `u64`; the address is everything after the first `:`.
pub open spec fn peer_entry(e: Seq<char>) -> Option<(u64, Seq<char>)> {
    match find_char(e, ':') {
        Some(k) => match unsigned_value(e.subrange(0, k), u64::MAX as int) {
            Some(id) => Some((id as u64, e.subrange(k + 1, e.len() as int))),
            None => None,
        },
        None => None,
    }
}

/// The peers of the entries among `ps`, trimmed, skipping empty and
/// malformed entries.
pub open spec fn peers_of(ps: Seq<Seq<char>>) -> Seq<(u64, Seq<char>)>
    decreases ps.len(),
{
    if ps.len() == 0 {
        Seq::empty()
    } else {
        let e = trim(ps.last());
        peers_of(ps.drop_last()) + if e.len() > 0 && peer_entry(e) is Some {
            seq![peer_entry(e)->0]
        } else {
            Seq::empty()
        }
    }
}

/// The peers of an `FF_PEERS` value such as `2:host:9090,3:host:9090`.
pub open spec fn peer_list(v: Seq<char>) -> Seq<(u64, Seq<char>)> {
    peers_of(pieces(v, ','))
}

/// The view of a list of peers.
pub open spec fn peers_view(ps: Seq<PeerConfig>) -> Seq<(u64, Seq<char>)> {
    ps.map_values(|p: PeerConfig| (p.id, p.addr@))
}

/// The peers of an `FF_PEERS` value (see `peer_list`).
pub fn parse_peers(v: &str) -> (r: Vec<PeerConfig>)
    ensures
        peers_view(r@) == peer_list(v@),
{
    let ps = split_chars(&chars_of(v), ',');
    let mut r: Vec<PeerConfig> = Vec::new();
    let mut i: usize = 0;
    assert(peers_view(r@) =~= Seq::<(u64, Seq<char>)>::empty());
    while i < ps.len()
        invariant
            i <= ps@.len(),
            crate::text::views(ps@) == pieces(v@, ','),
            peers_view(r@) == peers_of(crate::text::views(ps@).subrange(0, i as int)),
        decreases ps@.len() - i,
    {
        let ghost vs = crate::text::views(ps@);
        proof {
            assert(vs.subrange(0, i + 1).drop_last() =~= vs.subrange(0, i as int));
            assert(vs.subrange(0, i + 1).last() == ps@[i as int]@);
        }
        let e = trim_of(&ps[i]);
        if e.len() > 0 {
            if let Some(k) = find_char_of(&e, ':') {
                proof {
                    assert(is_first_occ(e@, seq![':'], k as int));
                    assert(occurs_at(e@, seq![':'], k as int));
                    assert(seq![':'].len() == 1);
                }
                match parse_unsigned_of(&slice_of(&e, 0, k), u64::MAX) {
                    Some(id) => {
                        let ghost before = peers_view(r@);
                        let addr = string_of(&slice_of(&e, k + 1, e.len()));
                        r.push(PeerConfig { id, addr });
                        assert(peers_view(r@) =~= before.push((id, e@.subrange(k + 1, e@.len() as int))));
                    },
                    None => {},
                }
            }
        }
        i = i + 1;
    }
    assert(crate::text::views(ps@).subrange(0, i as int) =~= crate::text::views(ps@));
    r
}

/// The value of the environment variable `k`: the first entry named `k`.
pub open spec fn env_lookup(vars: Seq<(String, String)>, k: Seq<char>) -> Option<Seq<char>>
    decreases vars.len(),
{
    if vars.len() == 0 {
        None
    } else if vars[0].0@ == k {
        Some(vars[0].1@)
    } else {
        env_lookup(vars.drop_first(), k)
    }
}

/// The value of the environment variable `k` (see `env_lookup`).
pub fn env_var<'a>(vars: &'a Vec<(String, String)>, k: &str) -> (r: Option<&'a str>)
    ensures
        crate::text::opt_str(r) == env_lookup(vars@, k@),
{
    let mut i: usize = 0;
    assert(vars@.subrange(0, vars@.len() as int) =~= vars@);
    while i < vars.len()
        invariant
            i <= vars@.len(),
            env_lookup(vars@, k@) == env_lookup(vars@.subrange(i as int, vars@.len() as int), k@),
        decreases vars@.len() - i,
    {
        proof {
            let rest = vars@.subrange(i as int, vars@.len() as int);
            assert(rest[0] == vars@[i as int]);
            assert(rest.drop_first() =~= vars@.subrange(i + 1, vars@.len() as int));
        }
        if str_eq(vars[i].0.as_str(), k) {
            return Some(vars[i].1.as_str());
        }
        i = i + 1;
    }
    None
}

/// The storage backend `FF_STORAGE` selects (its value lower-cased), or
/// `None` when it names neither.
pub open spec fn storage_named(lowered: Seq<char>) -> Option<StorageBackend> {
    if lowered == "sled"@ {
        Some(StorageBackend::Sled)
    } else if lowered == "memory"@ {
        Some(StorageBackend::Memory)
    } else {
        None
    }
}

/// The cluster section as plain values: node id, gRPC port, peers, election
/// timeout, heartbeat interval, snapshot threshold.
pub open spec fn cluster_view(c: Option<ClusterConfig>) -> Option<
    (u64, u16, Seq<(u64, Seq<char>)>, u64, u64, u64),
> {
    match c {
        Some(c) => Some(
            (
                c.node_id,
                c.grpc_port,
                peers_view(c.peers@),
                c.election_timeout_ms,
                c.heartbeat_interval_ms,
                c.snapshot_threshold,
            ),
        ),
        None => None,
    }
}

/// The cluster section after `FF_NODE_ID`, `FF_GRPC_PORT` and `FF_PEERS`:
/// a node id creates the section with defaults when it is missing; the
/// port and the peers only change an existing section; values that do not
/// parse are ignored.
pub open spec fn cluster_after(
    c: Option<(u64, u16, Seq<(u64, Seq<char>)>, u64, u64, u64)>,
    vars: Seq<(String, String)>,
) -> Option<(u64, u16, Seq<(u64, Seq<char>)>, u64, u64, u64)> {
    let c1 = match env_lookup(vars, "FF_NODE_ID"@) {
        Some(v) => match unsigned_value(v, u64::MAX as int) {
            Some(id) => match c {
                Some(x) => Some((id as u64, x.1, x.2, x.3, x.4, x.5)),
                None => Some((id as u64, 9090u16, Seq::empty(), 1000u64, 300u64, 1000u64)),
            },
            None => c,
        },
        None => c,
    };
    let c2 = match (env_lookup(vars, "FF_GRPC_PORT"@), c1) {
        (Some(v), Some(x)) => match unsigned_value(v, 65535) {
            Some(p) => Some((x.0, p as u16, x.2, x.3, x.4, x.5)),
            None => c1,
        },
        _ => c1,
    };
    match (env_lookup(vars, "FF_PEERS"@), c2) {
        (Some(v), Some(x)) => Some((x.0, x.1, peer_list(v), x.3, x.4, x.5)),
        _ => c2,
    }
}

/// The namespaces as plain values: name, read tokens, write tokens.
pub open spec fn namespaces_view(ns: Seq<(String, NamespaceConfig)>) -> Seq<
    (Seq<char>, Seq<Seq<char>>, Seq<Seq<char>>),
> {
    ns.map_values(
        |n: (String, NamespaceConfig)|
            (n.0@, string_views(n.1.read_tokens@), string_views(n.1.write_tokens@)),
    )
}

/// The position of the namespace `name`.
pub open spec fn ns_pos(ns: Seq<(Seq<char>, Seq<Seq<char>>, Seq<Seq<char>>)>, name: Seq<char>) -> int {
    choose|i: int| 0 <= i < ns.len() && ns[i].0 == name
}

/// Set the read (`write == false`) or write tokens of the namespace
/// `name`, adding the namespace with no tokens first when it is missing.
pub open spec fn set_ns_tokens(
    ns: Seq<(Seq<char>, Seq<Seq<char>>, Seq<Seq<char>>)>,
    name: Seq<char>,
    write: bool,
    tokens: Seq<Seq<char>>,
) -> Seq<(Seq<char>, Seq<Seq<char>>, Seq<Seq<char>>)> {
    let ns1 = if exists|i: int| 0 <= i < ns.len() && ns[i].0 == name {
        ns
    } else {
        ns.push((name, Seq::empty(), Seq::empty()))
    };
    let k = ns_pos(ns1, name);
    if write {
        ns1.update(k, (name, ns1[k].1, tokens))
    } else {
        ns1.update(k, (name, tokens, ns1[k].2))
    }
}

/// The namespaces after the variables `FF_NS_{NAME}_READ_TOKENS` and
/// `FF_NS_{NAME}_WRITE_TOKENS` among `vars`, taken in order; `{NAME}` is
/// lower-cased.
pub open spec fn namespaces_after(
    ns: Seq<(Seq<char>, Seq<Seq<char>>, Seq<Seq<char>>)>,
    vars: Seq<(String, String)>,
) -> Seq<(Seq<char>, Seq<Seq<char>>, Seq<Seq<char>>)>
    decreases vars.len(),
{
    if vars.len() == 0 {
        ns
    } else {
        let prev = namespaces_after(ns, vars.drop_last());
        let (k, v) = (vars.last().0@, vars.last().1@);
        if starts_with(k, "FF_NS_"@) {
            let rest = k.subrange(6, k.len() as int);
            if ends_with(rest, "_READ_TOKENS"@) {
                set_ns_tokens(prev, lower_text(rest.subrange(0, rest.len() - 12)), false, token_list(v))
            } else if ends_with(rest, "_WRITE_TOKENS"@) {
                set_ns_tokens(prev, lower_text(rest.subrange(0, rest.len() - 13)), true, token_list(v))
            } else {
                prev
            }
        } else {
            prev
        }
    }
}

/// Names in a namespace list are distinct.
pub open spec fn ns_distinct(ns: Seq<(Seq<char>, Seq<Seq<char>>, Seq<Seq<char>>)>) -> bool {
    forall|i: int, j: int| 0 <= i < ns.len() && 0 <= j < ns.len() && i != j ==> ns[i].0 != ns[j].0
}

/// Set the tokens of one namespace (see `set_ns_tokens`).
fn set_namespace_tokens(
    ns: &mut Vec<(String, NamespaceConfig)>,
    name: String,
    write: bool,
    tokens: Vec<String>,
)
    requires
        ns_distinct(namespaces_view(old(ns)@)),
    ensures
        ns_distinct(namespaces_view(final(ns)@)),
        namespaces_view(final(ns)@) == set_ns_tokens(
            namespaces_view(old(ns)@),
            name@,
            write,
            string_views(tokens@),
        ),
{
    let ghost nv0 = namespaces_view(ns@);
    let mut idx: usize = 0;
    let mut found = false;
    while !found && idx < ns.len()
        invariant
            idx <= ns@.len(),
            found ==> idx < ns@.len() && ns@[idx as int].0@ == name@,
            nv0 == namespaces_view(ns@),
            forall|m: int| 0 <= m < idx ==> ns@[m].0@ != name@,
        decreases ns@.len() - idx, if found { 0int } else { 1int },
    {
        if str_eq(ns[idx].0.as_str(), name.as_str()) {
            found = true;
        } else {
            idx = idx + 1;
        }
    }
    if !found {
        let ghost before = ns@;
        let fresh = NamespaceConfig::default();
        assert(string_views(fresh.read_tokens@) =~= Seq::<Seq<char>>::empty());
        assert(string_views(fresh.write_tokens@) =~= Seq::<Seq<char>>::empty());
        ns.push((name.clone(), fresh));
        proof {
            assert(namespaces_view(ns@) =~= nv0.push((name@, Seq::empty(), Seq::empty())));
            assert forall|i: int, j: int|
                0 <= i < ns@.len() && 0 <= j < ns@.len() && i != j implies namespaces_view(ns@)[i].0
                != namespaces_view(ns@)[j].0 by {
                if i < before.len() && j < before.len() {
                    assert(nv0[i].0 != nv0[j].0);
                }
            }
            assert(!(exists|i: int| 0 <= i < nv0.len() && nv0[i].0 == name@));
        }
    } else {
        proof {
            assert(nv0[idx as int].0 == name@);
        }
    }
    let ghost nv1 = namespaces_view(ns@);
    proof {
        assert(nv1[idx as int].0 == name@);
        let k = ns_pos(nv1, name@);
        assert(0 <= k < nv1.len() && nv1[k].0 == name@);
        assert(k == idx as int);
    }
    let (n, cfg) = ns.remove(idx);
    let mut cfg = cfg;
    let ghost old_read = string_views(cfg.read_tokens@);
    let ghost old_write = string_views(cfg.write_tokens@);
    if write {
        cfg.write_tokens = tokens;
    } else {
        cfg.read_tokens = tokens;
    }
    ns.insert(idx, (n, cfg));
    proof {
        let exp = if write {
            nv1.update(idx as int, (name@, nv1[idx as int].1, string_views(tokens@)))
        } else {
            nv1.update(idx as int, (name@, string_views(tokens@), nv1[idx as int].2))
        };
        assert(namespaces_view(ns@) =~= exp);
    }
}

/// Apply the `FF_NS_{NAME}_READ_TOKENS` and `FF_NS_{NAME}_WRITE_TOKENS`
/// variables among `vars` to the namespaces (see `namespaces_after`).
fn apply_namespace_vars(namespaces: &mut Vec<(String, NamespaceConfig)>, vars: &Vec<(String, String)>)
    requires
        ns_distinct(namespaces_view(old(namespaces)@)),
    ensures
        ns_distinct(namespaces_view(final(namespaces)@)),
        namespaces_view(final(namespaces)@) == namespaces_after(namespaces_view(old(namespaces)@), vars@),
{
    let prefix = chars_of("FF_NS_");
    let read_suffix = chars_of("_READ_TOKENS");
    let write_suffix = chars_of("_WRITE_TOKENS");
    proof {
        reveal_strlit("FF_NS_");
        reveal_strlit("_READ_TOKENS");
        reveal_strlit("_WRITE_TOKENS");
    }
    let ghost ns0 = namespaces_view(namespaces@);
    let mut i: usize = 0;
    while i < vars.len()
        invariant
            i <= vars@.len(),
            prefix@ == "FF_NS_"@,
            read_suffix@ == "_READ_TOKENS"@,
            write_suffix@ == "_WRITE_TOKENS"@,
            prefix@.len() == 6,
            read_suffix@.len() == 12,
            write_suffix@.len() == 13,
            ns_distinct(namespaces_view(namespaces@)),
            namespaces_view(namespaces@) == namespaces_after(
                ns0,
                vars@.subrange(0, i as int),
            ),
        decreases vars@.len() - i,
    {
        proof {
            assert(vars@.subrange(0, i + 1).drop_last() =~= vars@.subrange(0, i as int));
            assert(vars@.subrange(0, i + 1).last() == vars@[i as int]);
        }
        let key = chars_of(vars[i].0.as_str());
        if starts_with_of(&key, &prefix) {
            let rest = slice_of(&key, 6, key.len());
            if ends_with_of(&rest, &read_suffix) {
                let name = to_lower(string_of(&slice_of(&rest, 0, rest.len() - 12)).as_str());
                set_namespace_tokens(
                    namespaces,
                    name,
                    false,
                    parse_token_list(vars[i].1.as_str()),
                );
            } else if ends_with_of(&rest, &write_suffix) {
                let name = to_lower(string_of(&slice_of(&rest, 0, rest.len() - 13)).as_str());
                set_namespace_tokens(
                    namespaces,
                    name,
                    true,
                    parse_token_list(vars[i].1.as_str()),
                );
            }
        }
        i = i + 1;
    }
    assert(vars@.subrange(0, i as int) =~= vars@);
}

impl FfServerConfig {
    /// Apply the environment variables `vars` (name and value, as the
    /// process environment lists them) to the configuration:
    /// `FF_STORAGE` (`sled` or `memory`, any case), `FF_NODE_ID`,
    /// `FF_GRPC_PORT`, `FF_PEERS`, `FF_ROOT_READ_TOKENS`,
    /// `FF_ROOT_WRITE_TOKENS`, and `FF_NS_{NAME}_READ_TOKENS` /
    /// `FF_NS_{NAME}_WRITE_TOKENS` for each namespace. Returns the
    /// lower-cased `FF_STORAGE` value when it names no backend (it is then
    /// ignored).
    pub fn apply_env_overrides(&mut self, vars: &Vec<(String, String)>) -> (unknown_storage: Option<String>)
        requires
            ns_distinct(namespaces_view(old(self).namespaces@)),
        ensures
            ns_distinct(namespaces_view(final(self).namespaces@)),
            final(self).server.port == old(self).server.port,
            final(self).server.hostname@ == old(self).server.hostname@,
            final(self).server.data_dir@ == old(self).server.data_dir@,
            final(self).server.storage == match env_lookup(vars@, "FF_STORAGE"@) {
                Some(v) => match storage_named(lower_text(v)) {
                    Some(b) => b,
                    None => old(self).server.storage,
                },
                None => old(self).server.storage,
            },
            crate::formatter::normalize::opt_view(unknown_storage) == match env_lookup(vars@, "FF_STORAGE"@) {
                Some(v) => if storage_named(lower_text(v)) is None {
                    Some(lower_text(v))
                } else {
                    None
                },
                None => None,
            },
            cluster_view(final(self).cluster) == cluster_after(cluster_view(old(self).cluster), vars@),
            string_views(final(self).root.read_tokens@) == match env_lookup(vars@, "FF_ROOT_READ_TOKENS"@) {
                Some(v) => token_list(v),
                None => string_views(old(self).root.read_tokens@),
            },
            string_views(final(self).root.write_tokens@) == match env_lookup(vars@, "FF_ROOT_WRITE_TOKENS"@) {
                Some(v) => token_list(v),
                None => string_views(old(self).root.write_tokens@),
            },
            namespaces_view(final(self).namespaces@) == namespaces_after(
                namespaces_view(old(self).namespaces@),
                vars@,
            ),
    {
        // FF_STORAGE
        let mut unknown: Option<String> = None;
        if let Some(val) = env_var(vars, "FF_STORAGE") {
            let lowered = to_lower(val);
            if str_eq(lowered.as_str(), "sled") {
                self.server.storage = StorageBackend::Sled;
            } else if str_eq(lowered.as_str(), "memory") {
                self.server.storage = StorageBackend::Memory;
            } else {
                unknown = Some(lowered);
            }
        }
        // FF_NODE_ID: creates the cluster section when it is missing
        let ghost c0 = cluster_view(self.cluster);
        if let Some(val) = env_var(vars, "FF_NODE_ID") {
            if let Some(node_id) = parse_unsigned_of(&chars_of(val), u64::MAX) {
                match self.cluster.take() {
                    Some(c) => {
                        let mut c = c;
                        c.node_id = node_id;
                        self.cluster = Some(c);
                    },
                    None => {
                        let c = ClusterConfig {
                            node_id,
                            grpc_port: default_grpc_port(),
                            peers: Vec::new(),
                            election_timeout_ms: default_election_timeout(),
                            heartbeat_interval_ms: default_heartbeat_interval(),
                            snapshot_threshold: default_snapshot_threshold(),
                        };
                        assert(peers_view(c.peers@) =~= Seq::<(u64, Seq<char>)>::empty());
                        self.cluster = Some(c);
                    },
                }
            }
        }
        // FF_GRPC_PORT
        if let Some(val) = env_var(vars, "FF_GRPC_PORT") {
            if let Some(port) = parse_unsigned_of(&chars_of(val), 65535) {
                match self.cluster.take() {
                    Some(c) => {
                        let mut c = c;
                        c.grpc_port = port as u16;
                        self.cluster = Some(c);
                    },
                    None => {},
                }
            }
        }
        // FF_PEERS
        if let Some(val) = env_var(vars, "FF_PEERS") {
            match self.cluster.take() {
                Some(c) => {
                    let mut c = c;
                    c.peers = parse_peers(val);
                    self.cluster = Some(c);
                },
                None => {},
            }
        }
        // FF_ROOT_READ_TOKENS and FF_ROOT_WRITE_TOKENS
        if let Some(val) = env_var(vars, "FF_ROOT_READ_TOKENS") {
            self.root.read_tokens = parse_token_list(val);
        }
        if let Some(val) = env_var(vars, "FF_ROOT_WRITE_TOKENS") {
            self.root.write_tokens = parse_token_list(val);
        }
        // FF_NS_{NAME}_READ_TOKENS and FF_NS_{NAME}_WRITE_TOKENS
        apply_namespace_vars(&mut self.namespaces, vars);
        unknown
    }
}

} // verus!
