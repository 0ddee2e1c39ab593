//! Rules after an unconditional value.
use vstd::prelude::*;
use crate::ast::{AstNode, FlagDefinition, Rule};
use crate::lint::{finding_if, findings, push_finding, LintLevel, LintWarning};
use crate::lint::missing_default::{is_value, is_value_rule};
use crate::text::{concat4, decimal, decimal_of};

verus! {

/// The number of rules that follow the first unconditional value.
pub open spec fn unreachable_count(rules: Seq<Rule<AstNode>>) -> nat
    decreases rules.len(),
{
    if rules.len() == 0 {
        0
    } else if is_value(rules[0]) {
        (rules.len() - 1) as nat
    } else {
        unreachable_count(rules.drop_first())
    }
}

proof fn lemma_unreachable_step(rules: Seq<Rule<AstNode>>, i: int)
    requires
        0 <= i < rules.len(),
        !is_value(rules[i]),
    ensures
        unreachable_count(rules.subrange(i, rules.len() as int)) == unreachable_count(
            rules.subrange(i + 1, rules.len() as int),
        ),
{
    assert(rules.subrange(i, rules.len() as int).drop_first() =~= rules.subrange(
        i + 1,
        rules.len() as int,
    ));
}

/// The rules of a flag that can never be reached because an earlier rule is
/// an unconditional value, by position.
fn find_unreachable(rules: &Vec<Rule<AstNode>>) -> (r: usize)
    ensures
        r == unreachable_count(rules@),
{
    let mut i: usize = 0;
    assert(rules@.subrange(0, rules@.len() as int) =~= rules@);
    while i < rules.len()
        invariant
            i <= rules@.len(),
            unreachable_count(rules@) == unreachable_count(
                rules@.subrange(i as int, rules@.len() as int),
            ),
        decreases rules@.len() - i,
    {
        if is_value_rule(&rules[i]) {
            assert(rules@.subrange(i as int, rules@.len() as int)[0] == rules@[i as int]);
            return rules.len() - 1 - i;
        }
        proof {
            lemma_unreachable_step(rules@, i as int);
        }
        i = i + 1;
    }
    0
}

/// A warning giving the number of rules after the first unconditional value.
pub open spec fn findings_of(name: Seq<char>, def: FlagDefinition) -> Seq<(LintLevel, Seq<char>)> {
    finding_if(
        unreachable_count(def.rules@) > 0,
        (
            LintLevel::Warning,
            name + ": "@ + decimal(unreachable_count(def.rules@))
                + " unreachable rule(s) after catch-all"@,
        ),
    )
}

/// A warning giving the number of rules after the first unconditional value.
pub fn check(name: &str, def: &FlagDefinition) -> (r: Vec<LintWarning>)
    ensures
        findings(r@) == findings_of(name@, *def),
{
    assert(def.rules@.subrange(0, def.rules@.len() as int) =~= def.rules@);
    let count = find_unreachable(&def.rules);
    let mut warnings: Vec<LintWarning> = Vec::new();
    if count > 0 {
        let n = decimal_of(count as u64);
        push_finding(
            &mut warnings,
            LintWarning::warn(
                concat4(name, ": ", n.as_str(), " unreachable rule(s) after catch-all"),
            ),
        );
    }
    assert(findings(Seq::<LintWarning>::empty()) =~= Seq::empty());
    warnings
}

} // verus!
