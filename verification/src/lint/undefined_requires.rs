//! `@requires` entries that name no flag.
use vstd::prelude::*;
use crate::ast::{flag_name_list, flag_names, FlagDefinition, ParsedFlagfile};
use crate::lint::{extend_findings, finding_if, findings, push_finding, LintLevel, LintWarning};
use crate::text::{concat4, contains_str, string_views};

verus! {

/// An error for every `@requires` entry of the flag `name` that is not one
/// of `defined`, in order.
pub open spec fn undefined_in(defined: Seq<Seq<char>>, name: Seq<char>, reqs: Seq<Seq<char>>) -> Seq<
    (LintLevel, Seq<char>),
>
    decreases reqs.len(),
{
    if reqs.len() == 0 {
        Seq::empty()
    } else {
        undefined_in(defined, name, reqs.drop_last()) + finding_if(
            !defined.contains(reqs.last()),
            (
                LintLevel::Error,
                name + ": @requires references undefined flag \""@ + reqs.last() + "\""@,
            ),
        )
    }
}

/// The errors of `undefined_in` for each flag in turn.
pub open spec fn undefined_requires_findings(
    defined: Seq<Seq<char>>,
    flags: Seq<(String, FlagDefinition)>,
) -> Seq<(LintLevel, Seq<char>)>
    decreases flags.len(),
{
    if flags.len() == 0 {
        Seq::empty()
    } else {
        undefined_requires_findings(defined, flags.drop_last()) + undefined_in(
            defined,
            flags.last().0@,
            string_views(flags.last().1.metadata.requires@),
        )
    }
}

fn check_flag(defined: &Vec<String>, name: &str, reqs: &Vec<String>) -> (r: Vec<LintWarning>)
    ensures
        findings(r@) == undefined_in(string_views(defined@), name@, string_views(reqs@)),
{
    let mut warnings: Vec<LintWarning> = Vec::new();
    let mut j: usize = 0;
    while j < reqs.len()
        invariant
            j <= reqs@.len(),
            findings(warnings@) == undefined_in(
                string_views(defined@),
                name@,
                string_views(reqs@.subrange(0, j as int)),
            ),
        decreases reqs@.len() - j,
    {
        proof {
            assert(string_views(reqs@.subrange(0, j + 1)).drop_last() =~= string_views(
                reqs@.subrange(0, j as int),
            ));
        }
        if !contains_str(defined, reqs[j].as_str()) {
            push_finding(
                &mut warnings,
                LintWarning::error(
                    concat4(name, ": @requires references undefined flag \"", reqs[j].as_str(), "\""),
                ),
            );
        }
        j = j + 1;
    }
    assert(string_views(reqs@.subrange(0, j as int)) =~= string_views(reqs@));
    warnings
}

/// Errors for `@requires` entries that name no flag of the Flagfile.
pub fn check(parsed: &ParsedFlagfile) -> (r: Vec<LintWarning>)
    ensures
        findings(r@) == undefined_requires_findings(flag_names(parsed.flags@), parsed.flags@),
{
    let defined = flag_name_list(&parsed.flags);
    let mut warnings: Vec<LintWarning> = Vec::new();
    let mut i: usize = 0;
    assert(findings(warnings@) =~= Seq::empty());
    while i < parsed.flags.len()
        invariant
            i <= parsed.flags@.len(),
            string_views(defined@) == flag_names(parsed.flags@),
            findings(warnings@) == undefined_requires_findings(
                flag_names(parsed.flags@),
                parsed.flags@.subrange(0, i as int),
            ),
        decreases parsed.flags@.len() - i,
    {
        proof {
            assert(parsed.flags@.subrange(0, i + 1).drop_last() =~= parsed.flags@.subrange(
                0,
                i as int,
            ));
        }
        let more = check_flag(
            &defined,
            parsed.flags[i].0.as_str(),
            &parsed.flags[i].1.metadata.requires,
        );
        extend_findings(&mut warnings, more);
        i = i + 1;
    }
    assert(parsed.flags@.subrange(0, i as int) =~= parsed.flags@);
    warnings
}

} // verus!
