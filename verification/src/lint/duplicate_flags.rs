//! Flags defined more than once.
use vstd::prelude::*;
use crate::ast::{flag_name_list, flag_names, ParsedFlagfile};
use crate::lint::{finding_if, findings, push_finding, LintLevel, LintWarning};
use crate::text::{concat2, seen_before, string_views};

verus! {

/// A warning for every definition of a flag whose name an earlier
/// definition already used, in order.
pub open spec fn duplicate_flag_findings(names: Seq<Seq<char>>) -> Seq<(LintLevel, Seq<char>)>
    decreases names.len(),
{
    if names.len() == 0 {
        Seq::empty()
    } else {
        let earlier = names.drop_last();
        duplicate_flag_findings(earlier) + finding_if(
            earlier.contains(names.last()),
            (LintLevel::Warning, names.last() + " is defined more than once"@),
        )
    }
}

/// Warnings for flags defined more than once.
pub fn check(parsed: &ParsedFlagfile) -> (r: Vec<LintWarning>)
    ensures
        findings(r@) == duplicate_flag_findings(flag_names(parsed.flags@)),
{
    let names = flag_name_list(&parsed.flags);
    let mut warnings: Vec<LintWarning> = Vec::new();
    let mut i: usize = 0;
    while i < names.len()
        invariant
            i <= names@.len(),
            findings(warnings@) == duplicate_flag_findings(
                string_views(names@.subrange(0, i as int)),
            ),
        decreases names@.len() - i,
    {
        proof {
            assert(string_views(names@.subrange(0, i + 1)).drop_last() =~= string_views(
                names@.subrange(0, i as int),
            ));
        }
        if seen_before(&names, i, names[i].as_str()) {
            push_finding(
                &mut warnings,
                LintWarning::warn(concat2(names[i].as_str(), " is defined more than once")),
            );
        }
        i = i + 1;
    }
    assert(string_views(names@.subrange(0, i as int)) =~= string_views(names@));
    warnings
}

} // verus!
