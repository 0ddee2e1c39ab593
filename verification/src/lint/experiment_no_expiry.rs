//! Experiments without an expiry date.
use vstd::prelude::*;
use crate::ast::FlagDefinition;
use crate::lint::{finding_if, findings, push_finding, LintLevel, LintWarning};
use crate::text::{concat2, str_eq};

verus! {

/// A warning for a flag of `@type experiment` that has no `@expires`.
pub open spec fn findings_of(name: Seq<char>, def: FlagDefinition) -> Seq<(LintLevel, Seq<char>)> {
    finding_if(
        (match def.metadata.flag_type {
            Some(t) => t@ == "experiment"@,
            None => false,
        }) && def.metadata.expires is None,
        (LintLevel::Warning, name + ": type=experiment but no @expires set"@),
    )
}

/// A warning for a flag of `@type experiment` that has no `@expires`.
pub fn check(name: &str, def: &FlagDefinition) -> (r: Vec<LintWarning>)
    ensures
        findings(r@) == findings_of(name@, *def),
{
    let mut warnings: Vec<LintWarning> = Vec::new();
    let is_experiment = match &def.metadata.flag_type {
        Some(t) => str_eq(t.as_str(), "experiment"),
        None => false,
    };
    if is_experiment && def.metadata.expires.is_none() {
        push_finding(
            &mut warnings,
            LintWarning::warn(concat2(name, ": type=experiment but no @expires set")),
        );
    }
    assert(findings(Seq::<LintWarning>::empty()) =~= Seq::empty());
    warnings
}

} // verus!
