//! Deprecated flags without an expiry date.
use vstd::prelude::*;
use crate::ast::FlagDefinition;
use crate::lint::{finding_if, findings, push_finding, LintLevel, LintWarning};
use crate::text::concat2;

verus! {

/// A warning for a flag that is `@deprecated` but has no `@expires`.
pub open spec fn findings_of(name: Seq<char>, def: FlagDefinition) -> Seq<(LintLevel, Seq<char>)> {
    finding_if(
        def.metadata.deprecated is Some && def.metadata.expires is None,
        (LintLevel::Warning, name + ": @deprecated but no @expires set"@),
    )
}

/// A warning for a flag that is `@deprecated` but has no `@expires`.
pub fn check(name: &str, def: &FlagDefinition) -> (r: Vec<LintWarning>)
    ensures
        findings(r@) == findings_of(name@, *def),
{
    let mut warnings: Vec<LintWarning> = Vec::new();
    if def.metadata.deprecated.is_some() && def.metadata.expires.is_none() {
        push_finding(
            &mut warnings,
            LintWarning::warn(concat2(name, ": @deprecated but no @expires set")),
        );
    }
    assert(findings(Seq::<LintWarning>::empty()) =~= Seq::empty());
    warnings
}

} // verus!
