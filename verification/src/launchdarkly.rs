//! The JSON request bodies that push a flag to LaunchDarkly: the create
//! body and the JSON-Patch operations that sync variations, metadata and
//! per-environment targeting. JSON values are held as their compact text.
use vstd::prelude::*;
use crate::text::{chars_of, decimal, decimal_of, join_chars, join_with, push_all, str_eq, string_of, views};

verus! {

/// A variation of a flag: its value, and the whole variation object.
pub struct LdVariation {
    pub value: String,
    pub object: String,
}

/// A variation and its weight in a percentage rollout.
pub struct WeightedVariation {
    pub variation: usize,
    pub weight: u32,
}

/// A percentage rollout.
pub struct Rollout {
    pub variations: Vec<WeightedVariation>,
    pub bucket_by: Option<String>,
}

/// What a rule or the fallthrough serves, by local variation index.
pub enum RuleTarget {
    Variation { variation: usize },
    Rollout { rollout: Rollout },
}

/// A targeting rule: its clauses (a JSON array) and what it serves.
pub struct LdRule {
    pub description: Option<String>,
    pub clauses: String,
    pub target: RuleTarget,
}

/// The targeting of one environment.
pub struct LdEnv {
    pub rules: Vec<LdRule>,
    pub fallthrough: RuleTarget,
    pub off_variation: usize,
    /// The prerequisites, as a JSON array.
    pub prerequisites: String,
}

/// A flag as LaunchDarkly models it; environments by key, in ascending order.
pub struct LdFlag {
    pub key: String,
    pub name: String,
    pub description: Option<String>,
    pub tags: Vec<String>,
    pub variations: Vec<LdVariation>,
    pub environments: Vec<(String, LdEnv)>,
}

/// The two JSON-Patch request bodies of an update, in the order they are
/// sent: `var_ops` appends missing variations, `ops` sets metadata and
/// targeting.
pub struct FlagPatch {
    pub var_ops: Vec<String>,
    pub ops: Vec<String>,
}

// ── JSON text ──────────────────────────────────────────────────────

/// A hexadecimal digit, lower case.
pub open spec fn hex_digit(d: u32) -> char {
    if d < 10 {
        (('0' as u32) + d) as char
    } else {
        (('a' as u32) + d - 10) as char
    }
}

/// How `serde_json` writes one character inside a string: quote, backslash
/// and control characters escaped, everything else as is.
pub open spec fn json_char(c: char) -> Seq<char> {
    if c == '"' {
        seq!['\\', '"']
    } else if c == '\\' {
        seq!['\\', '\\']
    } else if c == '\x08' {
        seq!['\\', 'b']
    } else if c == '\t' {
        seq!['\\', 't']
    } else if c == '\n' {
        seq!['\\', 'n']
    } else if c == '\x0C' {
        seq!['\\', 'f']
    } else if c == '\r' {
        seq!['\\', 'r']
    } else if (c as u32) < 0x20 {
        seq!['\\', 'u', '0', '0', hex_digit((c as u32) / 16), hex_digit((c as u32) % 16)]
    } else {
        seq![c]
    }
}

/// The escaped contents of a JSON string.
pub open spec fn json_escaped(s: Seq<char>) -> Seq<char>
    decreases s.len(),
{
    if s.len() == 0 {
        Seq::empty()
    } else {
        json_escaped(s.drop_last()) + json_char(s.last())
    }
}

/// A string as a JSON string literal.
pub open spec fn json_str(s: Seq<char>) -> Seq<char> {
    seq!['"'] + json_escaped(s) + seq!['"']
}

fn hex_of(d: u32) -> (c: char)
    requires
        d < 16,
    ensures
        c == hex_digit(d),
{
    if d < 10 {
        let u = (('0' as u32) + d) as u8;
        u as char
    } else {
        let u = (('a' as u32) + d - 10) as u8;
        u as char
    }
}

fn push_json_char(out: &mut Vec<char>, c: char)
    ensures
        final(out)@ == old(out)@ + json_char(c),
{
    let u = c as u32;
    let ghost before = out@;
    if c == '"' {
        out.push('\\');
        out.push('"');
    } else if c == '\\' {
        out.push('\\');
        out.push('\\');
    } else if c == '\x08' {
        out.push('\\');
        out.push('b');
    } else if c == '\t' {
        out.push('\\');
        out.push('t');
    } else if c == '\n' {
        out.push('\\');
        out.push('n');
    } else if c == '\x0C' {
        out.push('\\');
        out.push('f');
    } else if c == '\r' {
        out.push('\\');
        out.push('r');
    } else if u < 0x20 {
        out.push('\\');
        out.push('u');
        out.push('0');
        out.push('0');
        out.push(hex_of(u / 16));
        out.push(hex_of(u % 16));
    } else {
        out.push(c);
    }
    assert(out@ =~= before + json_char(c));
}

/// A string as a JSON string literal (see `json_str`).
pub fn json_string(s: &str) -> (r: Vec<char>)
    ensures
        r@ == json_str(s@),
{
    let cs = chars_of(s);
    let mut out: Vec<char> = Vec::new();
    out.push('"');
    let mut i: usize = 0;
    while i < cs.len()
        invariant
            i <= cs@.len(),
            out@ == seq!['"'] + json_escaped(cs@.subrange(0, i as int)),
        decreases cs@.len() - i,
    {
        proof {
            assert(cs@.subrange(0, i + 1).drop_last() =~= cs@.subrange(0, i as int));
        }
        push_json_char(&mut out, cs[i]);
        i = i + 1;
    }
    assert(cs@.subrange(0, i as int) =~= cs@);
    out.push('"');
    out
}

/// A JSON array of the given element texts.
pub open spec fn json_array(items: Seq<Seq<char>>) -> Seq<char> {
    "["@ + join_with(items, ","@) + "]"@
}

fn array_of(items: &Vec<Vec<char>>) -> (r: Vec<char>)
    ensures
        r@ == json_array(views(items@)),
{
    let mut r = chars_of("[");
    push_all(&mut r, &join_chars(items, &chars_of(",")));
    push_all(&mut r, &chars_of("]"));
    r
}

/// Concatenate character vectors.
fn cat(parts: &Vec<Vec<char>>) -> (r: Vec<char>)
    ensures
        r@ == join_with(views(parts@), Seq::empty()),
{
    join_chars(parts, &Vec::new())
}

// ── Variation mapping ──────────────────────────────────────────────

/// The values of the flag's variations.
pub open spec fn variation_values(vs: Seq<LdVariation>) -> Seq<Seq<char>> {
    vs.map_values(|v: LdVariation| v.value@)
}

/// The live variation values after appending, in order, each local value
/// that is missing.
pub open spec fn mapped_values(live: Seq<Seq<char>>, local: Seq<Seq<char>>) -> Seq<Seq<char>>
    decreases local.len(),
{
    if local.len() == 0 {
        live
    } else {
        let m = mapped_values(live, local.drop_last());
        if m.contains(local.last()) {
            m
        } else {
            m.push(local.last())
        }
    }
}

/// The operations that append the missing variations.
pub open spec fn variation_ops(live: Seq<Seq<char>>, local: Seq<Seq<char>>) -> Seq<Seq<char>>
    decreases local.len(),
{
    if local.len() == 0 {
        Seq::empty()
    } else {
        let m = mapped_values(live, local.drop_last());
        variation_ops(live, local.drop_last()) + if m.contains(local.last()) {
            Seq::empty()
        } else {
            seq![
                "{\"op\":\"add\",\"path\":\"/variations/-\",\"value\":{\"value\":"@ + local.last()
                    + "}}"@,
            ]
        }
    }
}

/// The first position of `x` in `s`, or 0.
pub open spec fn position_or_zero(s: Seq<Seq<char>>, x: Seq<char>) -> nat {
    if s.contains(x) {
        (choose|i: int| 0 <= i < s.len() && s[i] == x && forall|j: int| 0 <= j < i ==> s[j] != x) as nat
    } else {
        0
    }
}

/// The live index of the local variation `local`: the position of its value
/// among the mapped live values, 0 for an unknown local index.
pub open spec fn live_index(mapped: Seq<Seq<char>>, values: Seq<Seq<char>>, local: int) -> nat {
    if 0 <= local < values.len() {
        position_or_zero(mapped, values[local])
    } else {
        0
    }
}

fn first_position(s: &Vec<String>, x: &str) -> (r: usize)
    ensures
        r == position_or_zero(crate::text::string_views(s@), x@),
{
    let ghost sv = crate::text::string_views(s@);
    let mut i: usize = 0;
    while i < s.len()
        invariant
            i <= s@.len(),
            sv == crate::text::string_views(s@),
            forall|j: int| 0 <= j < i ==> sv[j] != x@,
        decreases s@.len() - i,
    {
        if str_eq(s[i].as_str(), x) {
            proof {
                assert(sv[i as int] == x@);
                assert(sv.contains(x@));
                let k = choose|k: int| 0 <= k < sv.len() && sv[k] == x@ && forall|j: int| 0 <= j < k ==> sv[j] != x@;
                if k < i {
                    assert(sv[k] != x@);
                }
                if k > i {
                    assert(sv[i as int] != x@);
                }
            }
            return i;
        }
        i = i + 1;
    }
    assert(!sv.contains(x@));
    0
}

fn live_index_of(mapped: &Vec<String>, flag: &LdFlag, local: usize) -> (r: usize)
    ensures
        r == live_index(
            crate::text::string_views(mapped@),
            variation_values(flag.variations@),
            local as int,
        ),
{
    if local < flag.variations.len() {
        first_position(mapped, flag.variations[local].value.as_str())
    } else {
        0
    }
}

// ── Targets and rules ──────────────────────────────────────────────

/// A served variation, with its index mapped to the live ordering.
pub open spec fn variation_text(m: Seq<Seq<char>>, vals: Seq<Seq<char>>, v: usize) -> Seq<char> {
    "\"variation\":"@ + decimal(live_index(m, vals, v as int))
}

/// One weighted variation of a rollout.
pub open spec fn weighted_text(m: Seq<Seq<char>>, vals: Seq<Seq<char>>, w: WeightedVariation) -> Seq<
    char,
> {
    "{"@ + variation_text(m, vals, w.variation) + ",\"weight\":"@ + decimal(w.weight as nat) + "}"@
}

/// The weighted variations of a rollout.
pub open spec fn weighted_texts(
    m: Seq<Seq<char>>,
    vals: Seq<Seq<char>>,
    ws: Seq<WeightedVariation>,
) -> Seq<Seq<char>>
    decreases ws.len(),
{
    if ws.len() == 0 {
        Seq::empty()
    } else {
        weighted_texts(m, vals, ws.drop_last()).push(weighted_text(m, vals, ws.last()))
    }
}

/// The members of a target object (without braces): `"variation":N`, or
/// `"rollout":{...}` with `bucketBy` when set.
pub open spec fn target_members(m: Seq<Seq<char>>, vals: Seq<Seq<char>>, t: RuleTarget) -> Seq<char> {
    match t {
        RuleTarget::Variation { variation } => variation_text(m, vals, variation),
        RuleTarget::Rollout { rollout } => "\"rollout\":{"@ + match rollout.bucket_by {
            Some(b) => "\"bucketBy\":"@ + json_str(b@) + ","@,
            None => Seq::empty(),
        } + "\"variations\":"@ + json_array(weighted_texts(m, vals, rollout.variations@)) + "}"@,
    }
}

/// A target as a JSON object, indices mapped to the live ordering.
pub open spec fn target_json(m: Seq<Seq<char>>, vals: Seq<Seq<char>>, t: RuleTarget) -> Seq<char> {
    "{"@ + target_members(m, vals, t) + "}"@
}

/// A rule as a JSON object: its clauses, description and target.
pub open spec fn rule_json(m: Seq<Seq<char>>, vals: Seq<Seq<char>>, r: LdRule) -> Seq<char> {
    "{\"clauses\":"@ + r.clauses@ + match r.description {
        Some(d) => ",\"description\":"@ + json_str(d@),
        None => Seq::empty(),
    } + ","@ + target_members(m, vals, r.target) + "}"@
}

/// The rules of an environment as JSON objects.
pub open spec fn rules_json(m: Seq<Seq<char>>, vals: Seq<Seq<char>>, rs: Seq<LdRule>) -> Seq<Seq<char>>
    decreases rs.len(),
{
    if rs.len() == 0 {
        Seq::empty()
    } else {
        rules_json(m, vals, rs.drop_last()).push(rule_json(m, vals, rs.last()))
    }
}

fn variation_chars(mapped: &Vec<String>, flag: &LdFlag, v: usize) -> (r: Vec<char>)
    ensures
        r@ == variation_text(
            crate::text::string_views(mapped@),
            variation_values(flag.variations@),
            v,
        ),
{
    let mut r = chars_of("\"variation\":");
    push_all(&mut r, &chars_of(decimal_of(live_index_of(mapped, flag, v) as u64).as_str()));
    r
}

fn target_member_chars(mapped: &Vec<String>, flag: &LdFlag, t: &RuleTarget) -> (r: Vec<char>)
    ensures
        r@ == target_members(
            crate::text::string_views(mapped@),
            variation_values(flag.variations@),
            *t,
        ),
{
    let ghost m = crate::text::string_views(mapped@);
    let ghost vals = variation_values(flag.variations@);
    match t {
        RuleTarget::Variation { variation } => variation_chars(mapped, flag, *variation),
        RuleTarget::Rollout { rollout } => {
            let mut items: Vec<Vec<char>> = Vec::new();
            let mut i: usize = 0;
            assert(views(items@) =~= Seq::<Seq<char>>::empty());
            while i < rollout.variations.len()
                invariant
                    i <= rollout.variations@.len(),
                    m == crate::text::string_views(mapped@),
                    vals == variation_values(flag.variations@),
                    views(items@) == weighted_texts(m, vals, rollout.variations@.subrange(0, i as int)),
                decreases rollout.variations@.len() - i,
            {
                let w = &rollout.variations[i];
                let mut item = chars_of("{");
                push_all(&mut item, &variation_chars(mapped, flag, w.variation));
                push_all(&mut item, &chars_of(",\"weight\":"));
                push_all(&mut item, &chars_of(decimal_of(w.weight as u64).as_str()));
                push_all(&mut item, &chars_of("}"));
                let ghost before = views(items@);
                items.push(item);
                proof {
                    assert(rollout.variations@.subrange(0, i + 1).drop_last() =~= rollout.variations@.subrange(0, i as int));
                    assert(views(items@) =~= before.push(weighted_text(m, vals, rollout.variations@[i as int])));
                }
                i = i + 1;
            }
            assert(rollout.variations@.subrange(0, i as int) =~= rollout.variations@);
            let mut r = chars_of("\"rollout\":{");
            if let Some(b) = &rollout.bucket_by {
                push_all(&mut r, &chars_of("\"bucketBy\":"));
                push_all(&mut r, &json_string(b.as_str()));
                push_all(&mut r, &chars_of(","));
            }
            push_all(&mut r, &chars_of("\"variations\":"));
            push_all(&mut r, &array_of(&items));
            push_all(&mut r, &chars_of("}"));
            r
        },
    }
}

fn target_chars(mapped: &Vec<String>, flag: &LdFlag, t: &RuleTarget) -> (r: Vec<char>)
    ensures
        r@ == target_json(crate::text::string_views(mapped@), variation_values(flag.variations@), *t),
{
    let mut r = chars_of("{");
    push_all(&mut r, &target_member_chars(mapped, flag, t));
    push_all(&mut r, &chars_of("}"));
    r
}

fn rule_chars(mapped: &Vec<String>, flag: &LdFlag, rule: &LdRule) -> (r: Vec<char>)
    ensures
        r@ == rule_json(crate::text::string_views(mapped@), variation_values(flag.variations@), *rule),
{
    let mut r = chars_of("{\"clauses\":");
    push_all(&mut r, &chars_of(rule.clauses.as_str()));
    if let Some(d) = &rule.description {
        push_all(&mut r, &chars_of(",\"description\":"));
        push_all(&mut r, &json_string(d.as_str()));
    }
    push_all(&mut r, &chars_of(","));
    push_all(&mut r, &target_member_chars(mapped, flag, &rule.target));
    push_all(&mut r, &chars_of("}"));
    r
}

// ── Request bodies ─────────────────────────────────────────────────

/// The tags as JSON strings.
pub open spec fn tag_texts(tags: Seq<String>) -> Seq<Seq<char>> {
    tags.map_values(|t: String| json_str(t@))
}

/// The variation objects.
pub open spec fn variation_objects(vs: Seq<LdVariation>) -> Seq<Seq<char>> {
    vs.map_values(|v: LdVariation| v.object@)
}

/// The tags as a JSON array of strings.
pub open spec fn tags_json(tags: Seq<String>) -> Seq<char> {
    json_array(tag_texts(tags))
}

/// The variation objects as a JSON array.
pub open spec fn variations_json(vs: Seq<LdVariation>) -> Seq<char> {
    json_array(variation_objects(vs))
}

fn tags_chars(tags: &Vec<String>) -> (r: Vec<char>)
    ensures
        r@ == tags_json(tags@),
{
    let mut items: Vec<Vec<char>> = Vec::new();
    let mut i: usize = 0;
    while i < tags.len()
        invariant
            i <= tags@.len(),
            views(items@) == tag_texts(tags@.subrange(0, i as int)),
        decreases tags@.len() - i,
    {
        let ghost before = views(items@);
        items.push(json_string(tags[i].as_str()));
        assert(views(items@) =~= before.push(json_str(tags@[i as int]@)));
        assert(tag_texts(tags@.subrange(0, i + 1)) =~= tag_texts(tags@.subrange(0, i as int)).push(json_str(tags@[i as int]@)));
        i = i + 1;
    }
    assert(tags@.subrange(0, i as int) =~= tags@);
    array_of(&items)
}

fn variations_chars(vs: &Vec<LdVariation>) -> (r: Vec<char>)
    ensures
        r@ == variations_json(vs@),
{
    let mut items: Vec<Vec<char>> = Vec::new();
    let mut i: usize = 0;
    while i < vs.len()
        invariant
            i <= vs@.len(),
            views(items@) == variation_objects(vs@.subrange(0, i as int)),
        decreases vs@.len() - i,
    {
        let ghost before = views(items@);
        items.push(chars_of(vs[i].object.as_str()));
        assert(views(items@) =~= before.push(vs@[i as int].object@));
        assert(variation_objects(vs@.subrange(0, i + 1)) =~= variation_objects(vs@.subrange(0, i as int)).push(vs@[i as int].object@));
        i = i + 1;
    }
    assert(vs@.subrange(0, i as int) =~= vs@);
    array_of(&items)
}

/// The body that creates a flag: its flag-level fields, keys in order.
pub open spec fn create_body_json(f: LdFlag) -> Seq<char> {
    "{"@ + match f.description {
        Some(d) => "\"description\":"@ + json_str(d@) + ","@,
        None => Seq::empty(),
    } + "\"key\":"@ + json_str(f.key@) + ",\"name\":"@ + json_str(f.name@) + ",\"tags\":"@
        + tags_json(f.tags@) + ",\"variations\":"@ + variations_json(f.variations@) + "}"@
}

/// The create request body for a flag: flag-level fields only (per-env
/// targeting is applied separately).
pub fn create_body(flag: &LdFlag) -> (r: String)
    ensures
        r@ == create_body_json(*flag),
{
    let mut r = chars_of("{");
    if let Some(d) = &flag.description {
        push_all(&mut r, &chars_of("\"description\":"));
        push_all(&mut r, &json_string(d.as_str()));
        push_all(&mut r, &chars_of(","));
    }
    push_all(&mut r, &chars_of("\"key\":"));
    push_all(&mut r, &json_string(flag.key.as_str()));
    push_all(&mut r, &chars_of(",\"name\":"));
    push_all(&mut r, &json_string(flag.name.as_str()));
    push_all(&mut r, &chars_of(",\"tags\":"));
    push_all(&mut r, &tags_chars(&flag.tags));
    push_all(&mut r, &chars_of(",\"variations\":"));
    push_all(&mut r, &variations_chars(&flag.variations));
    push_all(&mut r, &chars_of("}"));
    string_of(&r)
}

/// A `replace` operation at `path` with the given value text.
pub open spec fn replace_op(path: Seq<char>, value: Seq<char>) -> Seq<char> {
    "{\"op\":\"replace\",\"path\":"@ + json_str(path) + ",\"value\":"@ + value + "}"@
}

fn replace_chars(path: &str, value: &Vec<char>) -> (r: String)
    ensures
        r@ == replace_op(path@, value@),
{
    let mut r = chars_of("{\"op\":\"replace\",\"path\":");
    push_all(&mut r, &json_string(path));
    push_all(&mut r, &chars_of(",\"value\":"));
    push_all(&mut r, value);
    push_all(&mut r, &chars_of("}"));
    string_of(&r)
}

/// The targeting operations of one environment.
#[verifier::opaque]
pub open spec fn env_ops(
    m: Seq<Seq<char>>,
    vals: Seq<Seq<char>>,
    key: Seq<char>,
    env: LdEnv,
    enable_on: bool,
) -> Seq<Seq<char>> {
    let base = "/environments/"@ + key;
    (if enable_on {
        seq![replace_op(base + "/on"@, "true"@)]
    } else {
        Seq::empty()
    }) + seq![
        replace_op(base + "/rules"@, json_array(rules_json(m, vals, env.rules@))),
        replace_op(base + "/fallthrough"@, target_json(m, vals, env.fallthrough)),
        replace_op(base + "/offVariation"@, decimal(live_index(m, vals, env.off_variation as int))),
        replace_op(base + "/prerequisites"@, env.prerequisites@),
    ]
}

/// The operations for every environment that `only_env` selects (all when
/// it is `None`), in order.
pub open spec fn envs_ops(
    m: Seq<Seq<char>>,
    vals: Seq<Seq<char>>,
    envs: Seq<(String, LdEnv)>,
    only_env: Option<Seq<char>>,
    enable_on: bool,
) -> Seq<Seq<char>>
    decreases envs.len(),
{
    if envs.len() == 0 {
        Seq::empty()
    } else {
        let (k, e) = envs.last();
        envs_ops(m, vals, envs.drop_last(), only_env, enable_on) + if only_env is None || only_env
            == Some(k@) {
            env_ops(m, vals, k@, e, enable_on)
        } else {
            Seq::empty()
        }
    }
}

/// The flag-level metadata operations: name, tags and, when set, description.
pub open spec fn metadata_ops(f: LdFlag) -> Seq<Seq<char>> {
    seq![replace_op("/name"@, json_str(f.name@)), replace_op("/tags"@, tags_json(f.tags@))]
        + match f.description {
        Some(d) => seq![replace_op("/description"@, json_str(d@))],
        None => Seq::empty(),
    }
}

/// Some environment key of the flag is `k`.
pub open spec fn has_env(envs: Seq<(String, LdEnv)>, k: Seq<char>) -> bool {
    exists|i: int| 0 <= i < envs.len() && envs[i].0@ == k
}

/// The patch bodies for a flag against LaunchDarkly's live variation
/// values `live` (in LaunchDarkly's order): missing variations are appended,
/// never reordered, and every variation index is resolved by value against
/// the resulting order. `enable_on` (set for a flag just created) turns
/// each selected environment on; otherwise its on/off state is left alone.
/// Refused when `only_env` names an environment the flag does not configure.
pub open spec fn flag_patch(
    f: LdFlag,
    only_env: Option<Seq<char>>,
    live: Seq<Seq<char>>,
    enable_on: bool,
) -> Result<(Seq<Seq<char>>, Seq<Seq<char>>), Seq<char>> {
    let vals = variation_values(f.variations@);
    let m = mapped_values(live, vals);
    match only_env {
        Some(o) => if !has_env(f.environments@, o) {
            Err("environment '"@ + o + "' is not configured for this flag"@)
        } else {
            Ok((variation_ops(live, vals), metadata_ops(f) + envs_ops(m, vals, f.environments@, only_env, enable_on)))
        },
        None => Ok((variation_ops(live, vals), metadata_ops(f) + envs_ops(m, vals, f.environments@, only_env, enable_on))),
    }
}

fn push_string(out: &mut Vec<String>, s: String)
    ensures
        crate::text::string_views(final(out)@) == crate::text::string_views(old(out)@).push(s@),
{
    let ghost before = out@;
    let ghost sv = s@;
    out.push(s);
    assert(crate::text::string_views(out@) =~= crate::text::string_views(before).push(sv));
}

/// Append the targeting operations of one environment (see `env_ops`).
#[verifier::rlimit(100)]
#[verifier::spinoff_prover]
fn push_env_ops(
    ops: &mut Vec<String>,
    mapped: &Vec<String>,
    flag: &LdFlag,
    key: &str,
    env: &LdEnv,
    enable_on: bool,
)
    ensures
        crate::text::string_views(final(ops)@) == crate::text::string_views(old(ops)@) + env_ops(
            crate::text::string_views(mapped@),
            variation_values(flag.variations@),
            key@,
            *env,
            enable_on,
        ),
{
    let ghost m = crate::text::string_views(mapped@);
    let ghost vals = variation_values(flag.variations@);
    let ghost before = crate::text::string_views(ops@);
    let base = crate::text::concat2("/environments/", key);
    let ghost bv = "/environments/"@ + key@;
    let mut mine: Vec<String> = Vec::new();
    assert(crate::text::string_views(mine@) =~= Seq::<Seq<char>>::empty());
    if enable_on {
        let op = replace_chars(crate::text::concat2(base.as_str(), "/on").as_str(), &chars_of("true"));
        proof {
            reveal_strlit("true");
        }
        assert(op@ == replace_op(bv + "/on"@, "true"@));
        push_string(&mut mine, op);
    }
    let ghost head = crate::text::string_views(mine@);
    assert(head == if enable_on { seq![replace_op(bv + "/on"@, "true"@)] } else { Seq::<Seq<char>>::empty() });
    let mut rules: Vec<Vec<char>> = Vec::new();
    let mut j: usize = 0;
    assert(views(rules@) =~= Seq::<Seq<char>>::empty());
    while j < env.rules.len()
        invariant
            j <= env.rules@.len(),
            m == crate::text::string_views(mapped@),
            vals == variation_values(flag.variations@),
            views(rules@) == rules_json(m, vals, env.rules@.subrange(0, j as int)),
        decreases env.rules@.len() - j,
    {
        let ghost rb = views(rules@);
        rules.push(rule_chars(mapped, flag, &env.rules[j]));
        proof {
            assert(env.rules@.subrange(0, j + 1).drop_last() =~= env.rules@.subrange(0, j as int));
            assert(views(rules@) =~= rb.push(rule_json(m, vals, env.rules@[j as int])));
        }
        j = j + 1;
    }
    assert(env.rules@.subrange(0, j as int) =~= env.rules@);
    let op1 = replace_chars(crate::text::concat2(base.as_str(), "/rules").as_str(), &array_of(&rules));
    let op2 = replace_chars(crate::text::concat2(base.as_str(), "/fallthrough").as_str(), &target_chars(mapped, flag, &env.fallthrough));
    let off = decimal_of(live_index_of(mapped, flag, env.off_variation) as u64);
    let op3 = replace_chars(crate::text::concat2(base.as_str(), "/offVariation").as_str(), &chars_of(off.as_str()));
    let op4 = replace_chars(crate::text::concat2(base.as_str(), "/prerequisites").as_str(), &chars_of(env.prerequisites.as_str()));
    let ghost tail = seq![op1@, op2@, op3@, op4@];
    assert(tail == seq![
        replace_op(bv + "/rules"@, json_array(rules_json(m, vals, env.rules@))),
        replace_op(bv + "/fallthrough"@, target_json(m, vals, env.fallthrough)),
        replace_op(bv + "/offVariation"@, decimal(live_index(m, vals, env.off_variation as int))),
        replace_op(bv + "/prerequisites"@, env.prerequisites@),
    ]);
    push_string(&mut mine, op1);
    push_string(&mut mine, op2);
    push_string(&mut mine, op3);
    push_string(&mut mine, op4);
    assert(crate::text::string_views(mine@) =~= head + tail);
    assert(head + tail == env_ops(m, vals, key@, *env, enable_on)) by {
        reveal(env_ops);
    }
    let ghost mv = crate::text::string_views(mine@);
    let ghost ov = crate::text::string_views(ops@);
    let mut mine = mine;
    ops.append(&mut mine);
    assert(crate::text::string_views(ops@) =~= ov + mv);
}

proof fn lemma_has_env_step(envs: Seq<(String, LdEnv)>, k: int, o: Seq<char>)
    requires
        0 <= k < envs.len(),
    ensures
        has_env(envs.subrange(0, k + 1), o) == (has_env(envs.subrange(0, k), o) || envs[k].0@ == o),
{
    let pre = envs.subrange(0, k);
    let post = envs.subrange(0, k + 1);
    if has_env(post, o) {
        let w = choose|w: int| 0 <= w < post.len() && post[w].0@ == o;
        if w < k {
            assert(pre[w].0@ == o);
        }
    }
    if has_env(pre, o) {
        let w = choose|w: int| 0 <= w < pre.len() && pre[w].0@ == o;
        assert(post[w].0@ == o);
    }
    if envs[k].0@ == o {
        assert(post[k].0@ == o);
    }
}

/// The live values with the missing local ones appended, and the
/// operations that append them.
fn append_missing_variations(flag: &LdFlag, live_values: &Vec<String>) -> (r: (Vec<String>, Vec<String>))
    ensures
        crate::text::string_views(r.0@) == variation_ops(
            crate::text::string_views(live_values@),
            variation_values(flag.variations@),
        ),
        crate::text::string_views(r.1@) == mapped_values(
            crate::text::string_views(live_values@),
            variation_values(flag.variations@),
        ),
{
    let ghost live = crate::text::string_views(live_values@);
    let ghost vals = variation_values(flag.variations@);
    let mut var_ops: Vec<String> = Vec::new();
    let mut mapped: Vec<String> = crate::text::clone_strings(live_values);
    let mut i: usize = 0;
    assert(crate::text::string_views(var_ops@) =~= Seq::<Seq<char>>::empty());
    assert(vals.subrange(0, 0) =~= Seq::<Seq<char>>::empty());
    while i < flag.variations.len()
        invariant
            i <= flag.variations@.len(),
            live == crate::text::string_views(live_values@),
            vals == variation_values(flag.variations@),
            crate::text::string_views(mapped@) == mapped_values(live, vals.subrange(0, i as int)),
            crate::text::string_views(var_ops@) == variation_ops(live, vals.subrange(0, i as int)),
        decreases flag.variations@.len() - i,
    {
        let v = flag.variations[i].value.as_str();
        proof {
            assert(vals.subrange(0, i + 1).drop_last() =~= vals.subrange(0, i as int));
            assert(vals.subrange(0, i + 1).last() == v@);
        }
        if !crate::text::contains_str(&mapped, v) {
            let op = crate::text::concat3(
                "{\"op\":\"add\",\"path\":\"/variations/-\",\"value\":{\"value\":",
                v,
                "}}",
            );
            push_string(&mut var_ops, op);
            push_string(&mut mapped, v.to_owned());
        }
        i = i + 1;
    }
    assert(vals.subrange(0, i as int) =~= vals);
    (var_ops, mapped)
}

/// The flag-level metadata operations (see `metadata_ops`).
fn metadata_op_list(flag: &LdFlag) -> (r: Vec<String>)
    ensures
        crate::text::string_views(r@) == metadata_ops(*flag),
{
    let mut ops: Vec<String> = Vec::new();
    assert(crate::text::string_views(ops@) =~= Seq::<Seq<char>>::empty());
    push_string(&mut ops, replace_chars("/name", &json_string(flag.name.as_str())));
    push_string(&mut ops, replace_chars("/tags", &tags_chars(&flag.tags)));
    if let Some(d) = &flag.description {
        push_string(&mut ops, replace_chars("/description", &json_string(d.as_str())));
    }
    assert(crate::text::string_views(ops@) =~= metadata_ops(*flag));
    ops
}

/// Append the targeting operations of the selected environments; whether
/// an environment was selected.
fn push_selected_envs(
    ops: &mut Vec<String>,
    mapped: &Vec<String>,
    flag: &LdFlag,
    only_env: Option<&str>,
    enable_on: bool,
) -> (touched: bool)
    ensures
        crate::text::string_views(final(ops)@) == crate::text::string_views(old(ops)@) + envs_ops(
            crate::text::string_views(mapped@),
            variation_values(flag.variations@),
            flag.environments@,
            crate::text::opt_str(only_env),
            enable_on,
        ),
        touched == match only_env {
            Some(o) => has_env(flag.environments@, o@),
            None => flag.environments@.len() > 0,
        },
{
    let ghost m = crate::text::string_views(mapped@);
    let ghost vals = variation_values(flag.variations@);
    let ghost start = crate::text::string_views(ops@);
    let mut touched = false;
    let mut k: usize = 0;
    assert(flag.environments@.subrange(0, 0) =~= Seq::<(String, LdEnv)>::empty());
    assert(start =~= start + Seq::<Seq<char>>::empty());
    while k < flag.environments.len()
        invariant
            k <= flag.environments@.len(),
            m == crate::text::string_views(mapped@),
            vals == variation_values(flag.variations@),
            crate::text::string_views(ops@) == start + envs_ops(
                m,
                vals,
                flag.environments@.subrange(0, k as int),
                crate::text::opt_str(only_env),
                enable_on,
            ),
            touched == match only_env {
                Some(o) => has_env(flag.environments@.subrange(0, k as int), o@),
                None => k > 0,
            },
        decreases flag.environments@.len() - k,
    {
        let ghost pre = flag.environments@.subrange(0, k as int);
        proof {
            assert(flag.environments@.subrange(0, k + 1).drop_last() =~= pre);
            assert(flag.environments@.subrange(0, k + 1).last() == flag.environments@[k as int]);
        }
        let key = flag.environments[k].0.as_str();
        let env = &flag.environments[k].1;
        let selected = match only_env {
            Some(o) => str_eq(key, o),
            None => true,
        };
        let ghost before = crate::text::string_views(ops@);
        if selected {
            touched = true;
            push_env_ops(ops, mapped, flag, key, env, enable_on);
        }
        proof {
            match only_env {
                Some(o) => lemma_has_env_step(flag.environments@, k as int, o@),
                None => {},
            }
        }
        k = k + 1;
    }
    assert(flag.environments@.subrange(0, k as int) =~= flag.environments@);
    touched
}

/// The patch bodies for one flag (see `flag_patch`).
pub fn build_flag_patch(
    flag: &LdFlag,
    only_env: Option<&str>,
    live_values: &Vec<String>,
    enable_on: bool,
) -> (r: Result<FlagPatch, String>)
    ensures
        match r {
            Ok(p) => flag_patch(
                *flag,
                crate::text::opt_str(only_env),
                crate::text::string_views(live_values@),
                enable_on,
            ) == Ok::<(Seq<Seq<char>>, Seq<Seq<char>>), Seq<char>>(
                (crate::text::string_views(p.var_ops@), crate::text::string_views(p.ops@)),
            ),
            Err(e) => flag_patch(
                *flag,
                crate::text::opt_str(only_env),
                crate::text::string_views(live_values@),
                enable_on,
            ) == Err::<(Seq<Seq<char>>, Seq<Seq<char>>), Seq<char>>(e@),
        },
{
    let (var_ops, mapped) = append_missing_variations(flag, live_values);
    let mut ops = metadata_op_list(flag);
    let touched = push_selected_envs(&mut ops, &mapped, flag, only_env, enable_on);
    if let Some(o) = only_env {
        if !touched {
            return Err(crate::text::concat3("environment '", o, "' is not configured for this flag"));
        }
    }
    Ok(FlagPatch { var_ops, ops })
}

/// `p` is a path inside the LaunchDarkly environment `o`:
/// `/environments/{o}/...`.
pub open spec fn env_path(o: Seq<char>, p: Seq<char>) -> bool {
    exists|t: Seq<char>| p == "/environments/"@ + o + "/"@ + t
}

/// `op` replaces a value at a path inside the environment `o`.
pub open spec fn env_op(o: Seq<char>, op: Seq<char>) -> bool {
    exists|p: Seq<char>, v: Seq<char>| op == replace_op(p, v) && env_path(o, p)
}

proof fn lemma_env_path_suffix(o: Seq<char>, suffix: Seq<char>, rest: Seq<char>)
    requires
        suffix.len() > 0,
        suffix[0] == '/',
        rest == suffix.drop_first(),
    ensures
        env_path(o, "/environments/"@ + o + suffix),
{
    assert("/environments/"@ + o + suffix =~= "/environments/"@ + o + "/"@ + rest) by {
        reveal_strlit("/");
        assert(suffix =~= "/"@ + rest);
    }
}

/// A replace operation at `/environments/{key}` followed by a `/`-led
/// suffix lies inside that environment.
proof fn lemma_op_inside(key: Seq<char>, suffix: Seq<char>, v: Seq<char>)
    requires
        suffix.len() > 0,
        suffix[0] == '/',
    ensures
        env_op(key, replace_op("/environments/"@ + key + suffix, v)),
{
    lemma_env_path_suffix(key, suffix, suffix.drop_first());
}

proof fn lemma_env_suffixes()
    ensures
        "/on"@.len() > 0 && "/on"@[0] == '/',
        "/rules"@.len() > 0 && "/rules"@[0] == '/',
        "/fallthrough"@.len() > 0 && "/fallthrough"@[0] == '/',
        "/offVariation"@.len() > 0 && "/offVariation"@[0] == '/',
        "/prerequisites"@.len() > 0 && "/prerequisites"@[0] == '/',
{
    reveal_strlit("/on");
    reveal_strlit("/rules");
    reveal_strlit("/fallthrough");
    reveal_strlit("/offVariation");
    reveal_strlit("/prerequisites");
}

/// Every operation of one environment's targeting replaces a value inside
/// that environment.
#[verifier::rlimit(100)]
#[verifier::spinoff_prover]
proof fn lemma_env_ops_inside(
    m: Seq<Seq<char>>,
    vals: Seq<Seq<char>>,
    key: Seq<char>,
    env: LdEnv,
    enable_on: bool,
)
    ensures
        env_ops(m, vals, key, env, enable_on).len() >= 4,
        forall|j: int|
            0 <= j < env_ops(m, vals, key, env, enable_on).len() ==> env_op(
                key,
                #[trigger] env_ops(m, vals, key, env, enable_on)[j],
            ),
{
    let base = "/environments/"@ + key;
    let o0 = replace_op(base + "/on"@, "true"@);
    let o1 = replace_op(base + "/rules"@, json_array(rules_json(m, vals, env.rules@)));
    let o2 = replace_op(base + "/fallthrough"@, target_json(m, vals, env.fallthrough));
    let o3 = replace_op(base + "/offVariation"@, decimal(live_index(m, vals, env.off_variation as int)));
    let o4 = replace_op(base + "/prerequisites"@, env.prerequisites@);
    lemma_env_suffixes();
    lemma_op_inside(key, "/on"@, "true"@);
    lemma_op_inside(key, "/rules"@, json_array(rules_json(m, vals, env.rules@)));
    lemma_op_inside(key, "/fallthrough"@, target_json(m, vals, env.fallthrough));
    lemma_op_inside(key, "/offVariation"@, decimal(live_index(m, vals, env.off_variation as int)));
    lemma_op_inside(key, "/prerequisites"@, env.prerequisites@);
    let head = if enable_on {
        seq![o0]
    } else {
        Seq::<Seq<char>>::empty()
    };
    let tail = seq![o1, o2, o3, o4];
    assert(env_ops(m, vals, key, env, enable_on) == head + tail) by {
        reveal(env_ops);
    }
    let ops = head + tail;
    assert forall|j: int| 0 <= j < ops.len() implies env_op(key, #[trigger] ops[j]) by {
        if j < head.len() {
            assert(ops[j] == o0);
        } else {
            assert(ops[j] == tail[j - head.len()]);
        }
    }
}

/// With `--env` naming `o`, every environment operation lies inside `o`.
proof fn lemma_envs_ops_only(
    m: Seq<Seq<char>>,
    vals: Seq<Seq<char>>,
    envs: Seq<(String, LdEnv)>,
    o: Seq<char>,
    enable_on: bool,
)
    ensures
        forall|j: int|
            0 <= j < envs_ops(m, vals, envs, Some(o), enable_on).len() ==> env_op(
                o,
                #[trigger] envs_ops(m, vals, envs, Some(o), enable_on)[j],
            ),
    decreases envs.len(),
{
    if envs.len() > 0 {
        let (k, e) = envs.last();
        lemma_envs_ops_only(m, vals, envs.drop_last(), o, enable_on);
        lemma_env_ops_inside(m, vals, k@, e, enable_on);
        let front = envs_ops(m, vals, envs.drop_last(), Some(o), enable_on);
        let last = if Some(o) == Some(k@) {
            env_ops(m, vals, k@, e, enable_on)
        } else {
            Seq::<Seq<char>>::empty()
        };
        let all = envs_ops(m, vals, envs, Some(o), enable_on);
        assert(all == front + last);
        assert forall|j: int| 0 <= j < all.len() implies env_op(o, #[trigger] all[j]) by {
            if j < front.len() {
                assert(all[j] == front[j]);
            } else {
                assert(all[j] == last[j - front.len()]);
                assert(k@ == o);
            }
        }
    }
}

/// An environment the flag configures gets at least its four targeting
/// operations.
proof fn lemma_envs_ops_touch(
    m: Seq<Seq<char>>,
    vals: Seq<Seq<char>>,
    envs: Seq<(String, LdEnv)>,
    o: Seq<char>,
    enable_on: bool,
)
    requires
        has_env(envs, o),
    ensures
        envs_ops(m, vals, envs, Some(o), enable_on).len() >= 4,
    decreases envs.len(),
{
    let (k, e) = envs.last();
    let front = envs_ops(m, vals, envs.drop_last(), Some(o), enable_on);
    let last = if Some(o) == Some(k@) {
        env_ops(m, vals, k@, e, enable_on)
    } else {
        Seq::<Seq<char>>::empty()
    };
    assert(envs_ops(m, vals, envs, Some(o), enable_on) == front + last);
    if k@ == o {
        lemma_env_ops_inside(m, vals, k@, e, enable_on);
    } else {
        let i = choose|i: int| 0 <= i < envs.len() && envs[i].0@ == o;
        assert(i < envs.len() - 1);
        assert(envs.drop_last()[i] == envs[i]);
        lemma_envs_ops_touch(m, vals, envs.drop_last(), o, enable_on);
    }
}

/// `--env o` narrows a push to one environment: the patch for the flag
/// starts with the flag-level operations, every operation after them
/// replaces a value under `/environments/o/`, so no other environment is
/// touched, and `o` itself gets at least its four targeting operations.
pub proof fn law_env_narrows_patch(f: LdFlag, o: Seq<char>, live: Seq<Seq<char>>, enable_on: bool)
    requires
        flag_patch(f, Some(o), live, enable_on) is Ok,
    ensures
        ({
            let ops = flag_patch(f, Some(o), live, enable_on)->Ok_0.1;
            &&& metadata_ops(f).len() <= ops.len()
            &&& ops.subrange(0, metadata_ops(f).len() as int) == metadata_ops(f)
            &&& forall|j: int|
                metadata_ops(f).len() <= j < ops.len() ==> env_op(o, #[trigger] ops[j])
            &&& ops.len() >= metadata_ops(f).len() + 4
        }),
{
    lemma_envs_ops_touch(
        mapped_values(live, variation_values(f.variations@)),
        variation_values(f.variations@),
        f.environments@,
        o,
        enable_on,
    );
    let vals = variation_values(f.variations@);
    let m = mapped_values(live, vals);
    let env_part = envs_ops(m, vals, f.environments@, Some(o), enable_on);
    lemma_envs_ops_only(m, vals, f.environments@, o, enable_on);
    let ops = flag_patch(f, Some(o), live, enable_on)->Ok_0.1;
    assert(ops == metadata_ops(f) + env_part);
    assert(ops.subrange(0, metadata_ops(f).len() as int) =~= metadata_ops(f));
    assert forall|j: int| metadata_ops(f).len() <= j < ops.len() implies env_op(o, #[trigger] ops[j]) by {
        assert(ops[j] == env_part[j - metadata_ops(f).len()]);
    }
}

} // verus!
