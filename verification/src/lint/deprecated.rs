//! Flags marked `@deprecated`.
use vstd::prelude::*;
use crate::ast::FlagDefinition;
use crate::lint::{findings, push_finding, LintLevel, LintWarning};
use crate::text::concat4;

verus! {

/// A warning for a flag that carries a `@deprecated` message, quoting it.
pub open spec fn findings_of(name: Seq<char>, def: FlagDefinition) -> Seq<(LintLevel, Seq<char>)> {
    match def.metadata.deprecated {
        Some(msg) => seq![(LintLevel::Warning, name + " is deprecated: \""@ + msg@ + "\""@)],
        None => Seq::empty(),
    }
}

/// A warning for a flag that carries a `@deprecated` message, quoting it.
pub fn check(name: &str, def: &FlagDefinition) -> (r: Vec<LintWarning>)
    ensures
        findings(r@) == findings_of(name@, *def),
{
    let mut warnings: Vec<LintWarning> = Vec::new();
    if let Some(msg) = &def.metadata.deprecated {
        push_finding(
            &mut warnings,
            LintWarning::warn(concat4(name, " is deprecated: \"", msg.as_str(), "\"")),
        );
    }
    assert(findings(Seq::<LintWarning>::empty()) =~= Seq::empty());
    warnings
}

} // verus!
