//! The parsed form of a Flagfile, as far as the lint checks, the test
//! runner and the evaluator read it: flag definitions with their metadata
//! and rules, condition expressions, and named segments.
use vstd::prelude::*;
use crate::text::string_views;

verus! {

/// The value a flag rule returns.
#[derive(Debug, PartialEq)]
pub enum FlagReturn {
    OnOff(bool),
    Integer(i64),
    Str(String),
    /// A JSON value, held as its compact serialisation.
    Json(String),
}

/// A constant inside a condition.
#[derive(Debug)]
pub enum Atom {
    Boolean(bool),
    /// Any other constant, by its source text.
    Other(String),
}

/// A condition expression.
#[derive(Debug)]
pub enum AstNode {
    Void,
    Variable(String),
    Constant(Atom),
    List(Vec<Atom>),
    Logic(Box<AstNode>, Box<AstNode>),
    Compare(Box<AstNode>, Box<AstNode>),
    Match(Box<AstNode>, Box<AstNode>),
    Array(Box<AstNode>, Box<AstNode>),
    Scope(Box<AstNode>),
    /// A function applied to an expression, by the function's lower-case name.
    Function(String, Box<AstNode>),
    /// A percentage rollout over the given field.
    Percentage(Box<AstNode>),
    Coalesce(Vec<AstNode>),
    NullCheck(Box<AstNode>),
    /// A reference to a named segment.
    Segment(String),
}

/// One rule of a flag. `C` is the condition: an expression while the
/// Flagfile is checked, or whether that expression holds once a context
/// has been evaluated.
#[derive(Debug)]
#[verifier::reject_recursive_types(C)]
pub enum Rule<C> {
    BoolExpressionValue(C, FlagReturn),
    Value(FlagReturn),
    EnvRule { env: String, rules: Vec<Rule<C>> },
}

/// The annotations of a flag.
#[derive(Debug)]
pub struct FlagMetadata {
    pub owner: Option<String>,
    pub deprecated: Option<String>,
    /// Expiry date, as the number of days since 1 January of year 1
    /// (that day being day 1) in the proleptic Gregorian calendar.
    pub expires: Option<i32>,
    pub flag_type: Option<String>,
    pub requires: Vec<String>,
}

/// A flag: its annotations and its rules.
#[derive(Debug)]
pub struct FlagDefinition {
    pub metadata: FlagMetadata,
    pub rules: Vec<Rule<AstNode>>,
}

/// A parsed Flagfile: its flags in order of definition and its segments.
#[derive(Debug)]
pub struct ParsedFlagfile {
    pub flags: Vec<(String, FlagDefinition)>,
    pub segments: Vec<(String, AstNode)>,
}

// ── Segment references ─────────────────────────────────────────────

/// The segment names referenced in an expression, in traversal order.
pub open spec fn node_refs(n: AstNode) -> Seq<Seq<char>>
    decreases n,
{
    match n {
        AstNode::Segment(name) => seq![name@],
        AstNode::Logic(a, b) => node_refs(*a) + node_refs(*b),
        AstNode::Compare(a, b) => node_refs(*a) + node_refs(*b),
        AstNode::Match(a, b) => node_refs(*a) + node_refs(*b),
        AstNode::Array(a, b) => node_refs(*a) + node_refs(*b),
        AstNode::Scope(e) => node_refs(*e),
        AstNode::Function(_, e) => node_refs(*e),
        AstNode::Percentage(e) => node_refs(*e),
        AstNode::NullCheck(e) => node_refs(*e),
        AstNode::Coalesce(v) => nodes_refs(v@),
        _ => Seq::empty(),
    }
}

/// The segment names referenced in a list of expressions.
pub open spec fn nodes_refs(v: Seq<AstNode>) -> Seq<Seq<char>>
    decreases v,
{
    if v.len() == 0 {
        Seq::empty()
    } else {
        nodes_refs(v.drop_last()) + node_refs(v.last())
    }
}

/// The segment names referenced in the conditions of a list of rules.
pub open spec fn rules_refs(rules: Seq<Rule<AstNode>>) -> Seq<Seq<char>>
    decreases rules,
{
    if rules.len() == 0 {
        Seq::empty()
    } else {
        let last = match rules.last() {
            Rule::BoolExpressionValue(e, _) => node_refs(e),
            Rule::EnvRule { env: _, rules: sub } => rules_refs(sub@),
            Rule::Value(_) => Seq::empty(),
        };
        rules_refs(rules.drop_last()) + last
    }
}

/// Append the segment names referenced in `n` to `out`.
pub fn collect_node_refs(n: &AstNode, out: &mut Vec<String>)
    ensures
        string_views(final(out)@) == string_views(old(out)@) + node_refs(*n),
    decreases n,
{
    match n {
        AstNode::Segment(name) => {
            let ghost before = out@;
            let c = name.clone();
            out.push(c);
            assert(string_views(out@) == string_views(before).push(name@));
        },
        AstNode::Logic(a, b) => collect_pair_refs(n, a, b, out),
        AstNode::Compare(a, b) => collect_pair_refs(n, a, b, out),
        AstNode::Match(a, b) => collect_pair_refs(n, a, b, out),
        AstNode::Array(a, b) => collect_pair_refs(n, a, b, out),
        AstNode::Scope(e) => collect_node_refs(e, out),
        AstNode::Function(_, e) => collect_node_refs(e, out),
        AstNode::Percentage(e) => collect_node_refs(e, out),
        AstNode::NullCheck(e) => collect_node_refs(e, out),
        AstNode::Coalesce(v) => {
            let mut i: usize = 0;
            while i < v.len()
                invariant
                    i <= v.len(),
                    *n == AstNode::Coalesce(*v),
                    string_views(out@) == string_views(old(out)@) + nodes_refs(
                        v@.subrange(0, i as int),
                    ),
                decreases v.len() - i,
            {
                proof {
                    assert(decreases_to!(*n => n->Coalesce_0));
                    assert(decreases_to!(n->Coalesce_0 => n->Coalesce_0@));
                    assert(decreases_to!(n->Coalesce_0@ => v@[i as int]));
                }
                collect_node_refs(&v[i], out);
                proof {
                    assert(v@.subrange(0, i + 1).drop_last() == v@.subrange(0, i as int));
                }
                i = i + 1;
            }
            assert(v@.subrange(0, v.len() as int) == v@);
        },
        _ => {},
    }
}

fn collect_pair_refs(n: &AstNode, a: &AstNode, b: &AstNode, out: &mut Vec<String>)
    requires
        node_refs(*n) == node_refs(*a) + node_refs(*b),
        decreases_to!(*n => *a),
        decreases_to!(*n => *b),
    ensures
        string_views(final(out)@) == string_views(old(out)@) + node_refs(*n),
    decreases n, 0nat,
{
    collect_node_refs(a, out);
    collect_node_refs(b, out);
}

/// Append the segment names referenced in the conditions of `rules` to `out`.
pub fn collect_rules_refs(rules: &Vec<Rule<AstNode>>, out: &mut Vec<String>)
    ensures
        string_views(final(out)@) == string_views(old(out)@) + rules_refs(rules@),
    decreases rules,
{
    let mut i: usize = 0;
    while i < rules.len()
        invariant
            i <= rules@.len(),
            string_views(out@) == string_views(old(out)@) + rules_refs(rules@.subrange(0, i as int)),
        decreases rules@.len() - i,
    {
        proof {
            assert(rules@.subrange(0, i + 1).drop_last() =~= rules@.subrange(0, i as int));
            assert(rules@.subrange(0, i + 1).last() == rules@[i as int]);
        }
        match &rules[i] {
            Rule::BoolExpressionValue(e, _) => collect_node_refs(e, out),
            Rule::EnvRule { rules: sub, .. } => {
                proof {
                    assert(decreases_to!(*rules => rules@));
                    assert(decreases_to!(rules@ => rules@[i as int]));
                    assert(decreases_to!(rules@[i as int] => rules@[i as int]->EnvRule_rules));
                }
                collect_rules_refs(sub, out);
            },
            Rule::Value(_) => {
                assert(string_views(out@) =~= string_views(out@) + Seq::<Seq<char>>::empty());
            },
        }
        i = i + 1;
    }
    assert(rules@.subrange(0, i as int) =~= rules@);
}

/// The names of the flags, in order of definition.
pub open spec fn flag_names(flags: Seq<(String, FlagDefinition)>) -> Seq<Seq<char>> {
    flags.map_values(|f: (String, FlagDefinition)| f.0@)
}

/// The names of the segments, in order of definition.
pub open spec fn segment_names(segments: Seq<(String, AstNode)>) -> Seq<Seq<char>> {
    segments.map_values(|s: (String, AstNode)| s.0@)
}

/// The segment names referenced by the rules of the flags, in order.
pub open spec fn flags_refs(flags: Seq<(String, FlagDefinition)>) -> Seq<Seq<char>>
    decreases flags.len(),
{
    if flags.len() == 0 {
        Seq::empty()
    } else {
        flags_refs(flags.drop_last()) + rules_refs(flags.last().1.rules@)
    }
}

/// The segment names referenced by the segments' own expressions, in order.
pub open spec fn segments_refs(segments: Seq<(String, AstNode)>) -> Seq<Seq<char>>
    decreases segments.len(),
{
    if segments.len() == 0 {
        Seq::empty()
    } else {
        segments_refs(segments.drop_last()) + node_refs(segments.last().1)
    }
}

/// Every segment reference of a Flagfile: those of the flags' rules, then
/// those of the segments.
pub open spec fn all_refs(p: ParsedFlagfile) -> Seq<Seq<char>> {
    flags_refs(p.flags@) + segments_refs(p.segments@)
}

/// Every segment reference of a Flagfile (see `all_refs`).
pub fn collect_all_refs(p: &ParsedFlagfile) -> (r: Vec<String>)
    ensures
        string_views(r@) == all_refs(*p),
{
    let mut out: Vec<String> = Vec::new();
    let mut i: usize = 0;
    assert(string_views(out@) =~= Seq::<Seq<char>>::empty());
    while i < p.flags.len()
        invariant
            i <= p.flags@.len(),
            string_views(out@) == flags_refs(p.flags@.subrange(0, i as int)),
        decreases p.flags@.len() - i,
    {
        proof {
            assert(p.flags@.subrange(0, i + 1).drop_last() =~= p.flags@.subrange(0, i as int));
        }
        collect_rules_refs(&p.flags[i].1.rules, &mut out);
        i = i + 1;
    }
    assert(p.flags@.subrange(0, i as int) =~= p.flags@);
    let mut j: usize = 0;
    while j < p.segments.len()
        invariant
            j <= p.segments@.len(),
            string_views(out@) == flags_refs(p.flags@) + segments_refs(
                p.segments@.subrange(0, j as int),
            ),
        decreases p.segments@.len() - j,
    {
        proof {
            assert(p.segments@.subrange(0, j + 1).drop_last() =~= p.segments@.subrange(
                0,
                j as int,
            ));
        }
        collect_node_refs(&p.segments[j].1, &mut out);
        j = j + 1;
    }
    assert(p.segments@.subrange(0, j as int) =~= p.segments@);
    out
}

/// The names of the flags, in order of definition.
pub fn flag_name_list(flags: &Vec<(String, FlagDefinition)>) -> (r: Vec<String>)
    ensures
        string_views(r@) == flag_names(flags@),
{
    let mut r: Vec<String> = Vec::new();
    let mut i: usize = 0;
    while i < flags.len()
        invariant
            i <= flags@.len(),
            string_views(r@) == flag_names(flags@.subrange(0, i as int)),
        decreases flags@.len() - i,
    {
        let ghost before = r@;
        r.push(flags[i].0.clone());
        assert(string_views(r@) =~= string_views(before).push(flags@[i as int].0@));
        assert(flag_names(flags@.subrange(0, i + 1)) =~= flag_names(flags@.subrange(0, i as int)).push(
            flags@[i as int].0@,
        ));
        i = i + 1;
    }
    assert(flags@.subrange(0, i as int) =~= flags@);
    r
}

/// The names of the segments, in order of definition.
pub fn segment_name_list(segments: &Vec<(String, AstNode)>) -> (r: Vec<String>)
    ensures
        string_views(r@) == segment_names(segments@),
{
    let mut r: Vec<String> = Vec::new();
    let mut i: usize = 0;
    while i < segments.len()
        invariant
            i <= segments@.len(),
            string_views(r@) == segment_names(segments@.subrange(0, i as int)),
        decreases segments@.len() - i,
    {
        let ghost before = r@;
        r.push(segments[i].0.clone());
        assert(string_views(r@) =~= string_views(before).push(segments@[i as int].0@));
        assert(segment_names(segments@.subrange(0, i + 1)) =~= segment_names(
            segments@.subrange(0, i as int),
        ).push(segments@[i as int].0@));
        i = i + 1;
    }
    assert(segments@.subrange(0, i as int) =~= segments@);
    r
}

/// Every segment named by the condition of a rule, or by a rule inside an
/// `@env` block, is among the references of the rules.
pub proof fn law_rules_refs_cover(rules: Seq<Rule<AstNode>>, i: int, x: Seq<char>)
    requires
        0 <= i < rules.len(),
        match rules[i] {
            Rule::BoolExpressionValue(e, _) => node_refs(e).contains(x),
            Rule::EnvRule { env: _, rules: sub } => rules_refs(sub@).contains(x),
            Rule::Value(_) => false,
        },
    ensures
        rules_refs(rules).contains(x),
    decreases rules.len(),
{
    let last = match rules.last() {
        Rule::BoolExpressionValue(e, _) => node_refs(e),
        Rule::EnvRule { env: _, rules: sub } => rules_refs(sub@),
        Rule::Value(_) => Seq::empty(),
    };
    let front = rules_refs(rules.drop_last());
    assert(rules_refs(rules) == front + last);
    if i == rules.len() - 1 {
        let k = choose|k: int| 0 <= k < last.len() && last[k] == x;
        assert((front + last)[front.len() + k] == x);
    } else {
        assert(rules.drop_last()[i] == rules[i]);
        law_rules_refs_cover(rules.drop_last(), i, x);
        let k = choose|k: int| 0 <= k < front.len() && front[k] == x;
        assert((front + last)[k] == x);
    }
}

/// A segment named by a condition inside an `@env` block of a rule counts
/// among the references of those rules.
pub proof fn law_env_condition_refs(rules: Seq<Rule<AstNode>>, i: int, j: int, x: Seq<char>)
    requires
        0 <= i < rules.len(),
        rules[i] matches Rule::EnvRule { env: _, rules: sub } && 0 <= j < sub@.len() && (
        sub@[j] matches Rule::BoolExpressionValue(e, _) && node_refs(e).contains(x)),
    ensures
        rules_refs(rules).contains(x),
{
    let sub = rules[i]->EnvRule_rules;
    law_rules_refs_cover(sub@, j, x);
    law_rules_refs_cover(rules, i, x);
}

/// The references of any one flag's rules are among the references of the
/// whole Flagfile.
pub proof fn law_flag_refs_in_all(p: ParsedFlagfile, k: int, x: Seq<char>)
    requires
        0 <= k < p.flags@.len(),
        rules_refs(p.flags@[k].1.rules@).contains(x),
    ensures
        all_refs(p).contains(x),
{
    lemma_flags_refs_contain(p.flags@, k, x);
    let fr = flags_refs(p.flags@);
    let i = choose|i: int| 0 <= i < fr.len() && fr[i] == x;
    assert((fr + segments_refs(p.segments@))[i] == x);
}

proof fn lemma_flags_refs_contain(flags: Seq<(String, FlagDefinition)>, k: int, x: Seq<char>)
    requires
        0 <= k < flags.len(),
        rules_refs(flags[k].1.rules@).contains(x),
    ensures
        flags_refs(flags).contains(x),
    decreases flags.len(),
{
    let front = flags_refs(flags.drop_last());
    let last = rules_refs(flags.last().1.rules@);
    if k == flags.len() - 1 {
        let i = choose|i: int| 0 <= i < last.len() && last[i] == x;
        assert((front + last)[front.len() + i] == x);
    } else {
        assert(flags.drop_last()[k] == flags[k]);
        lemma_flags_refs_contain(flags.drop_last(), k, x);
        let i = choose|i: int| 0 <= i < front.len() && front[i] == x;
        assert((front + last)[i] == x);
    }
}

} // verus!
