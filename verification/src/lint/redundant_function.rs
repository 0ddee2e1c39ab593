//! A function applied directly to its own result.
use vstd::prelude::*;
use crate::ast::{AstNode, FlagDefinition, Rule};
use crate::lint::{finding_if, findings, push_finding, LintLevel, LintWarning};
use crate::text::{concat2, concat4, str_eq};

verus! {

/// The warning for `f(f(...))`.
pub open spec fn nested_finding(name: Seq<char>, f: Seq<char>) -> (LintLevel, Seq<char>) {
    (LintLevel::Warning, name + ": redundant nested "@ + f + "("@ + f + "(...))"@)
}

/// A warning for every function applied directly to the result of the
/// same function in an expression, outermost first.
pub open spec fn redundant_in_node(name: Seq<char>, n: AstNode) -> Seq<(LintLevel, Seq<char>)>
    decreases n,
{
    match n {
        AstNode::Function(f, inner) => (match *inner {
            AstNode::Function(g, _) => finding_if(f@ == g@, nested_finding(name, f@)),
            _ => Seq::empty(),
        }) + redundant_in_node(name, *inner),
        AstNode::Logic(a, b) => redundant_in_node(name, *a) + redundant_in_node(name, *b),
        AstNode::Compare(a, b) => redundant_in_node(name, *a) + redundant_in_node(name, *b),
        AstNode::Match(a, b) => redundant_in_node(name, *a) + redundant_in_node(name, *b),
        AstNode::Array(a, b) => redundant_in_node(name, *a) + redundant_in_node(name, *b),
        AstNode::Scope(e) => redundant_in_node(name, *e),
        AstNode::Percentage(e) => redundant_in_node(name, *e),
        AstNode::NullCheck(e) => redundant_in_node(name, *e),
        AstNode::Coalesce(v) => redundant_in_nodes(name, v@),
        _ => Seq::empty(),
    }
}

/// The warnings of `redundant_in_node` for a list of expressions.
pub open spec fn redundant_in_nodes(name: Seq<char>, v: Seq<AstNode>) -> Seq<
    (LintLevel, Seq<char>),
>
    decreases v,
{
    if v.len() == 0 {
        Seq::empty()
    } else {
        redundant_in_nodes(name, v.drop_last()) + redundant_in_node(name, v.last())
    }
}

/// The warnings of `redundant_in_node` for the conditions of a list of
/// rules, inside `@env` blocks too.
pub open spec fn redundant_in_rules(name: Seq<char>, rules: Seq<Rule<AstNode>>) -> Seq<
    (LintLevel, Seq<char>),
>
    decreases rules,
{
    if rules.len() == 0 {
        Seq::empty()
    } else {
        redundant_in_rules(name, rules.drop_last()) + match rules.last() {
            Rule::BoolExpressionValue(e, _) => redundant_in_node(name, e),
            Rule::EnvRule { env: _, rules: sub } => redundant_in_rules(name, sub@),
            Rule::Value(_) => Seq::empty(),
        }
    }
}

fn check_node(name: &str, n: &AstNode, warnings: &mut Vec<LintWarning>)
    ensures
        findings(final(warnings)@) == findings(old(warnings)@) + redundant_in_node(name@, *n),
    decreases n,
{
    match n {
        AstNode::Function(f, inner) => {
            let ghost start = warnings@;
            if let AstNode::Function(g, _) = &**inner {
                if str_eq(f.as_str(), g.as_str()) {
                    let a = concat4(name, ": redundant nested ", f.as_str(), "(");
                    let msg = concat2(concat2(a.as_str(), f.as_str()).as_str(), "(...))");
                    push_finding(warnings, LintWarning::warn(msg));
                }
            }
            check_node(name, inner, warnings);
            assert(findings(warnings@) =~= findings(start) + redundant_in_node(name@, *n));
        },
        AstNode::Logic(a, b) => check_pair(name, n, a, b, warnings),
        AstNode::Compare(a, b) => check_pair(name, n, a, b, warnings),
        AstNode::Match(a, b) => check_pair(name, n, a, b, warnings),
        AstNode::Array(a, b) => check_pair(name, n, a, b, warnings),
        AstNode::Scope(e) => check_node(name, e, warnings),
        AstNode::Percentage(e) => check_node(name, e, warnings),
        AstNode::NullCheck(e) => check_node(name, e, warnings),
        AstNode::Coalesce(v) => {
            let mut i: usize = 0;
            while i < v.len()
                invariant
                    i <= v.len(),
                    *n == AstNode::Coalesce(*v),
                    findings(warnings@) == findings(old(warnings)@) + redundant_in_nodes(
                        name@,
                        v@.subrange(0, i as int),
                    ),
                decreases v.len() - i,
            {
                proof {
                    assert(decreases_to!(*n => n->Coalesce_0));
                    assert(decreases_to!(n->Coalesce_0 => n->Coalesce_0@));
                    assert(decreases_to!(n->Coalesce_0@ => v@[i as int]));
                }
                check_node(name, &v[i], warnings);
                proof {
                    assert(v@.subrange(0, i + 1).drop_last() == v@.subrange(0, i as int));
                }
                i = i + 1;
            }
            assert(v@.subrange(0, v.len() as int) == v@);
        },
        _ => {
            assert(findings(warnings@) =~= findings(old(warnings)@) + redundant_in_node(name@, *n));
        },
    }
}

fn check_pair(
    name: &str,
    n: &AstNode,
    a: &AstNode,
    b: &AstNode,
    warnings: &mut Vec<LintWarning>,
)
    requires
        redundant_in_node(name@, *n) == redundant_in_node(name@, *a) + redundant_in_node(
            name@,
            *b,
        ),
        decreases_to!(*n => *a),
        decreases_to!(*n => *b),
    ensures
        findings(final(warnings)@) == findings(old(warnings)@) + redundant_in_node(name@, *n),
    decreases n, 0nat,
{
    check_node(name, a, warnings);
    check_node(name, b, warnings);
}

fn check_rules(name: &str, rules: &Vec<Rule<AstNode>>, warnings: &mut Vec<LintWarning>)
    ensures
        findings(final(warnings)@) == findings(old(warnings)@) + redundant_in_rules(
            name@,
            rules@,
        ),
    decreases rules,
{
    let mut i: usize = 0;
    while i < rules.len()
        invariant
            i <= rules@.len(),
            findings(warnings@) == findings(old(warnings)@) + redundant_in_rules(
                name@,
                rules@.subrange(0, i as int),
            ),
        decreases rules@.len() - i,
    {
        proof {
            assert(rules@.subrange(0, i + 1).drop_last() =~= rules@.subrange(0, i as int));
            assert(rules@.subrange(0, i + 1).last() == rules@[i as int]);
        }
        match &rules[i] {
            Rule::BoolExpressionValue(e, _) => check_node(name, e, warnings),
            Rule::EnvRule { rules: sub, .. } => {
                proof {
                    assert(decreases_to!(*rules => rules@));
                    assert(decreases_to!(rules@ => rules@[i as int]));
                    assert(decreases_to!(rules@[i as int] => rules@[i as int]->EnvRule_rules));
                }
                check_rules(name, sub, warnings);
            },
            Rule::Value(_) => {},
        }
        i = i + 1;
    }
    assert(rules@.subrange(0, i as int) =~= rules@);
}

/// Warnings for functions applied directly to the result of the same
/// function, such as `lower(lower(x))`.
pub fn check(name: &str, def: &FlagDefinition) -> (r: Vec<LintWarning>)
    ensures
        findings(r@) == redundant_in_rules(name@, def.rules@),
{
    let mut warnings: Vec<LintWarning> = Vec::new();
    check_rules(name, &def.rules, &mut warnings);
    assert(findings(Seq::<LintWarning>::empty()) + redundant_in_rules(name@, def.rules@)
        =~= redundant_in_rules(name@, def.rules@));
    warnings
}

} // verus!
