//! Flags without rules.
use vstd::prelude::*;
use crate::ast::FlagDefinition;
use crate::lint::{finding_if, findings, push_finding, LintLevel, LintWarning};
use crate::text::concat2;

verus! {

/// A warning for a flag that has no rules at all.
pub open spec fn findings_of(name: Seq<char>, def: FlagDefinition) -> Seq<(LintLevel, Seq<char>)> {
    finding_if(
        def.rules@.len() == 0,
        (LintLevel::Warning, name + ": flag has no rules (will always evaluate to None)"@),
    )
}

/// A warning for a flag that has no rules at all.
pub fn check(name: &str, def: &FlagDefinition) -> (r: Vec<LintWarning>)
    ensures
        findings(r@) == findings_of(name@, *def),
{
    let mut warnings: Vec<LintWarning> = Vec::new();
    if def.rules.len() == 0 {
        push_finding(
            &mut warnings,
            LintWarning::warn(concat2(name, ": flag has no rules (will always evaluate to None)")),
        );
    }
    assert(findings(Seq::<LintWarning>::empty()) =~= Seq::empty());
    warnings
}

} // verus!
