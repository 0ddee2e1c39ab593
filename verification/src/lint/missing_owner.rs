//! Flags with lifecycle annotations but no owner.
use vstd::prelude::*;
use crate::ast::FlagDefinition;
use crate::lint::{finding_if, findings, push_finding, LintLevel, LintWarning};
use crate::text::concat2;

verus! {

/// A warning for a flag that has `@deprecated`, `@expires` or `@type` but no `@owner`.
pub open spec fn findings_of(name: Seq<char>, def: FlagDefinition) -> Seq<(LintLevel, Seq<char>)> {
    finding_if(
        (def.metadata.deprecated is Some || def.metadata.expires is Some
            || def.metadata.flag_type is Some) && def.metadata.owner is None,
        (LintLevel::Warning, name + ": missing @owner"@),
    )
}

/// A warning for a flag that has `@deprecated`, `@expires` or `@type` but no `@owner`.
pub fn check(name: &str, def: &FlagDefinition) -> (r: Vec<LintWarning>)
    ensures
        findings(r@) == findings_of(name@, *def),
{
    let mut warnings: Vec<LintWarning> = Vec::new();
    let has_lifecycle_metadata = def.metadata.deprecated.is_some() || def.metadata.expires.is_some()
        || def.metadata.flag_type.is_some();
    if has_lifecycle_metadata && def.metadata.owner.is_none() {
        push_finding(&mut warnings, LintWarning::warn(concat2(name, ": missing @owner")));
    }
    assert(findings(Seq::<LintWarning>::empty()) =~= Seq::empty());
    warnings
}

} // verus!
