//! Repeated `@requires` entries.
use vstd::prelude::*;
use crate::ast::FlagDefinition;
use crate::lint::{finding_if, findings, push_finding, LintLevel, LintWarning};
use crate::text::{concat4, seen_before, string_views};

verus! {

/// A warning for every `@requires` entry that repeats an earlier one of the
/// same flag, in order.
pub open spec fn duplicate_requires_findings(name: Seq<char>, reqs: Seq<Seq<char>>) -> Seq<
    (LintLevel, Seq<char>),
>
    decreases reqs.len(),
{
    if reqs.len() == 0 {
        Seq::empty()
    } else {
        let earlier = reqs.drop_last();
        duplicate_requires_findings(name, earlier) + finding_if(
            earlier.contains(reqs.last()),
            (LintLevel::Warning, name + ": duplicate @requires \""@ + reqs.last() + "\""@),
        )
    }
}

/// Warnings for the `@requires` entries of a flag that repeat an earlier entry.
pub fn check(name: &str, def: &FlagDefinition) -> (r: Vec<LintWarning>)
    ensures
        findings(r@) == duplicate_requires_findings(
            name@,
            string_views(def.metadata.requires@),
        ),
{
    let reqs = &def.metadata.requires;
    let mut warnings: Vec<LintWarning> = Vec::new();
    let mut i: usize = 0;
    while i < reqs.len()
        invariant
            i <= reqs@.len(),
            findings(warnings@) == duplicate_requires_findings(
                name@,
                string_views(reqs@.subrange(0, i as int)),
            ),
        decreases reqs@.len() - i,
    {
        proof {
            assert(string_views(reqs@.subrange(0, i + 1)).drop_last() =~= string_views(
                reqs@.subrange(0, i as int),
            ));
        }
        if seen_before(reqs, i, reqs[i].as_str()) {
            push_finding(
                &mut warnings,
                LintWarning::warn(concat4(name, ": duplicate @requires \"", reqs[i].as_str(), "\"")),
            );
        }
        i = i + 1;
    }
    assert(string_views(reqs@.subrange(0, i as int)) =~= string_views(reqs@));
    warnings
}

} // verus!
