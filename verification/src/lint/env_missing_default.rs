//! Flags with `@env` rules but no fallback.
use vstd::prelude::*;
use crate::ast::{FlagDefinition, Rule};
use crate::lint::{finding_if, findings, push_finding, LintLevel, LintWarning};
use crate::lint::missing_default::{ends_with_value, ends_with_value_rule};
use crate::text::concat2;

verus! {

/// A warning for a flag that has an `@env` rule but whose last rule is not
/// an unconditional fallback for the environments it does not list.
pub open spec fn findings_of(name: Seq<char>, def: FlagDefinition) -> Seq<(LintLevel, Seq<char>)> {
    finding_if(
        (exists|i: int| 0 <= i < def.rules@.len() && #[trigger] def.rules@[i] is EnvRule)
            && !ends_with_value(def.rules@),
        (LintLevel::Warning, name + ": has @env rules but no fallback for unlisted environments"@),
    )
}

/// A warning for a flag that has an `@env` rule but whose last rule is not
/// an unconditional fallback for the environments it does not list.
pub fn check(name: &str, def: &FlagDefinition) -> (r: Vec<LintWarning>)
    ensures
        findings(r@) == findings_of(name@, *def),
{
    let mut has_env_rule = false;
    let mut i: usize = 0;
    while i < def.rules.len()
        invariant
            i <= def.rules@.len(),
            has_env_rule == exists|j: int| 0 <= j < i && #[trigger] def.rules@[j] is EnvRule,
        decreases def.rules@.len() - i,
    {
        if let Rule::EnvRule { .. } = &def.rules[i] {
            has_env_rule = true;
        }
        i = i + 1;
    }
    let mut warnings: Vec<LintWarning> = Vec::new();
    if has_env_rule && !ends_with_value_rule(&def.rules) {
        push_finding(
            &mut warnings,
            LintWarning::warn(
                concat2(name, ": has @env rules but no fallback for unlisted environments"),
            ),
        );
    }
    assert(findings(Seq::<LintWarning>::empty()) =~= Seq::empty());
    warnings
}

} // verus!
