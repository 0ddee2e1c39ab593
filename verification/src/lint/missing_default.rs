//! Flags whose last rule is conditional.
use vstd::prelude::*;
use crate::ast::{AstNode, FlagDefinition, Rule};
use crate::lint::{finding_if, findings, push_finding, LintLevel, LintWarning};
use crate::text::concat2;

verus! {

/// Whether a rule is an unconditional value.
pub open spec fn is_value(r: Rule<AstNode>) -> bool {
    r is Value
}

/// Whether the last rule of a list is an unconditional value.
pub open spec fn ends_with_value(rules: Seq<Rule<AstNode>>) -> bool {
    rules.len() > 0 && is_value(rules.last())
}

/// Whether a rule is an unconditional value.
pub fn is_value_rule(r: &Rule<AstNode>) -> (b: bool)
    ensures
        b == is_value(*r),
{
    match r {
        Rule::Value(_) => true,
        _ => false,
    }
}

/// Whether the last rule of a list is an unconditional value.
pub fn ends_with_value_rule(rules: &Vec<Rule<AstNode>>) -> (b: bool)
    ensures
        b == ends_with_value(rules@),
{
    rules.len() > 0 && is_value_rule(&rules[rules.len() - 1])
}

/// An error for a flag that has a conditional rule but whose last rule
/// is not an unconditional default.
pub open spec fn findings_of(name: Seq<char>, def: FlagDefinition) -> Seq<(LintLevel, Seq<char>)> {
    finding_if(
        (exists|i: int| 0 <= i < def.rules@.len() && !is_value(#[trigger] def.rules@[i]))
            && !ends_with_value(def.rules@),
        (LintLevel::Error, name + ": no default case (last rule is conditional)"@),
    )
}

/// An error for a flag that has a conditional rule but whose last rule
/// is not an unconditional default.
pub fn check(name: &str, def: &FlagDefinition) -> (r: Vec<LintWarning>)
    ensures
        findings(r@) == findings_of(name@, *def),
{
    let mut has_conditional = false;
    let mut i: usize = 0;
    while i < def.rules.len()
        invariant
            i <= def.rules@.len(),
            has_conditional == exists|j: int| 0 <= j < i && !is_value(#[trigger] def.rules@[j]),
        decreases def.rules@.len() - i,
    {
        if !is_value_rule(&def.rules[i]) {
            has_conditional = true;
        }
        i = i + 1;
    }
    let mut warnings: Vec<LintWarning> = Vec::new();
    if has_conditional && !ends_with_value_rule(&def.rules) {
        push_finding(
            &mut warnings,
            LintWarning::error(concat2(name, ": no default case (last rule is conditional)")),
        );
    }
    assert(findings(Seq::<LintWarning>::empty()) =~= Seq::empty());
    warnings
}

} // verus!
