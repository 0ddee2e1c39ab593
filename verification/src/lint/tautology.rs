//! Conditions that are always true.
use vstd::prelude::*;
use crate::ast::{AstNode, Atom, FlagDefinition, Rule};
use crate::lint::{finding_if, findings, push_finding, LintLevel, LintWarning};
use crate::text::concat2;

verus! {

/// Whether a condition is the constant `true`.
pub open spec fn is_true_constant(e: AstNode) -> bool {
    e matches AstNode::Constant(Atom::Boolean(b)) && b
}

/// A warning for every rule, inside `@env` blocks too, whose condition is
/// the constant `true`, in order.
pub open spec fn tautology_findings(name: Seq<char>, rules: Seq<Rule<AstNode>>) -> Seq<
    (LintLevel, Seq<char>),
>
    decreases rules,
{
    if rules.len() == 0 {
        Seq::empty()
    } else {
        tautology_findings(name, rules.drop_last()) + match rules.last() {
            Rule::BoolExpressionValue(e, _) => finding_if(
                is_true_constant(e),
                (
                    LintLevel::Warning,
                    name + ": tautological condition (true -> ...) is always matched"@,
                ),
            ),
            Rule::EnvRule { env: _, rules: sub } => tautology_findings(name, sub@),
            Rule::Value(_) => Seq::empty(),
        }
    }
}

fn check_rules(name: &str, rules: &Vec<Rule<AstNode>>, warnings: &mut Vec<LintWarning>)
    ensures
        findings(final(warnings)@) == findings(old(warnings)@) + tautology_findings(
            name@,
            rules@,
        ),
    decreases rules,
{
    let mut i: usize = 0;
    while i < rules.len()
        invariant
            i <= rules@.len(),
            findings(warnings@) == findings(old(warnings)@) + tautology_findings(
                name@,
                rules@.subrange(0, i as int),
            ),
        decreases rules@.len() - i,
    {
        proof {
            assert(rules@.subrange(0, i + 1).drop_last() =~= rules@.subrange(0, i as int));
            assert(rules@.subrange(0, i + 1).last() == rules@[i as int]);
        }
        match &rules[i] {
            Rule::BoolExpressionValue(e, _) => {
                let always = match e {
                    AstNode::Constant(Atom::Boolean(b)) => *b,
                    _ => false,
                };
                if always {
                    push_finding(
                        warnings,
                        LintWarning::warn(
                            concat2(name, ": tautological condition (true -> ...) is always matched"),
                        ),
                    );
                }
            },
            Rule::EnvRule { rules: sub, .. } => {
                proof {
                    assert(decreases_to!(*rules => rules@));
                    assert(decreases_to!(rules@ => rules@[i as int]));
                    assert(decreases_to!(rules@[i as int] => rules@[i as int]->EnvRule_rules));
                }
                check_rules(name, sub, warnings);
            },
            Rule::Value(_) => {},
        }
        i = i + 1;
    }
    assert(rules@.subrange(0, i as int) =~= rules@);
}

/// Warnings for rules whose condition is the constant `true`.
pub fn check(name: &str, def: &FlagDefinition) -> (r: Vec<LintWarning>)
    ensures
        findings(r@) == tautology_findings(name@, def.rules@),
{
    let mut warnings: Vec<LintWarning> = Vec::new();
    check_rules(name, &def.rules, &mut warnings);
    assert(findings(Seq::<LintWarning>::empty()) + tautology_findings(name@, def.rules@)
        =~= tautology_findings(name@, def.rules@));
    warnings
}

} // verus!
