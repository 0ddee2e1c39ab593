//! Segment references that name no segment.
use vstd::prelude::*;
use crate::ast::{all_refs, collect_all_refs, segment_name_list, segment_names, ParsedFlagfile};
use crate::lint::{finding_if, findings, push_finding, LintLevel, LintWarning};
use crate::text::{concat3, contains_str, seen_before, string_views};

verus! {

/// An error for every referenced segment name, at its first reference,
/// that is not among `defined`.
pub open spec fn undefined_segment_findings(defined: Seq<Seq<char>>, refs: Seq<Seq<char>>) -> Seq<
    (LintLevel, Seq<char>),
>
    decreases refs.len(),
{
    if refs.len() == 0 {
        Seq::empty()
    } else {
        let earlier = refs.drop_last();
        undefined_segment_findings(defined, earlier) + finding_if(
            !earlier.contains(refs.last()) && !defined.contains(refs.last()),
            (LintLevel::Error, "segment \""@ + refs.last() + "\" is used but never defined"@),
        )
    }
}

/// Errors for segment names that are referenced but never defined, each
/// reported once, in order of first reference.
pub fn check(parsed: &ParsedFlagfile) -> (r: Vec<LintWarning>)
    ensures
        findings(r@) == undefined_segment_findings(
            segment_names(parsed.segments@),
            all_refs(*parsed),
        ),
{
    let used = collect_all_refs(parsed);
    let defined = segment_name_list(&parsed.segments);
    let mut warnings: Vec<LintWarning> = Vec::new();
    let mut i: usize = 0;
    while i < used.len()
        invariant
            i <= used@.len(),
            string_views(defined@) == segment_names(parsed.segments@),
            findings(warnings@) == undefined_segment_findings(
                string_views(defined@),
                string_views(used@.subrange(0, i as int)),
            ),
        decreases used@.len() - i,
    {
        proof {
            assert(string_views(used@.subrange(0, i + 1)).drop_last() =~= string_views(
                used@.subrange(0, i as int),
            ));
        }
        if !seen_before(&used, i, used[i].as_str()) && !contains_str(&defined, used[i].as_str()) {
            push_finding(
                &mut warnings,
                LintWarning::error(
                    concat3("segment \"", used[i].as_str(), "\" is used but never defined"),
                ),
            );
        }
        i = i + 1;
    }
    assert(string_views(used@.subrange(0, i as int)) =~= string_views(used@));
    warnings
}

/// The message for a segment `n` that is used but not defined.
pub open spec fn undefined_message(n: Seq<char>) -> Seq<char> {
    "segment \""@ + n + "\" is used but never defined"@
}

/// Every referenced name that is not defined is reported as an error.
pub proof fn law_undefined_reported(defined: Seq<Seq<char>>, refs: Seq<Seq<char>>, x: Seq<char>)
    requires
        refs.contains(x),
        !defined.contains(x),
    ensures
        undefined_segment_findings(defined, refs).contains((LintLevel::Error, undefined_message(x))),
    decreases refs.len(),
{
    let earlier = refs.drop_last();
    let front = undefined_segment_findings(defined, earlier);
    let f = (LintLevel::Error, undefined_message(x));
    if earlier.contains(x) {
        law_undefined_reported(defined, earlier, x);
        let i = choose|i: int| 0 <= i < front.len() && front[i] == f;
        assert(undefined_segment_findings(defined, refs)[i] == f);
    } else {
        let k = choose|k: int| 0 <= k < refs.len() && refs[k] == x;
        if k < refs.len() - 1 {
            assert(earlier[k] == x);
        }
        assert(refs.last() == x);
        assert(undefined_segment_findings(defined, refs)[front.len() as int] == f);
    }
}

/// A segment named only by a condition inside an `@env` block of a flag,
/// and defined nowhere, is reported as undefined.
pub proof fn law_env_segment_undefined(p: ParsedFlagfile, k: int, i: int, j: int, x: Seq<char>)
    requires
        0 <= k < p.flags@.len(),
        0 <= i < p.flags@[k].1.rules@.len(),
        p.flags@[k].1.rules@[i] matches crate::ast::Rule::EnvRule { env: _, rules: sub } && 0 <= j
            < sub@.len() && (sub@[j] matches crate::ast::Rule::BoolExpressionValue(e, _)
            && crate::ast::node_refs(e).contains(x)),
        !segment_names(p.segments@).contains(x),
    ensures
        undefined_segment_findings(segment_names(p.segments@), all_refs(p)).contains(
            (LintLevel::Error, undefined_message(x)),
        ),
{
    crate::ast::law_env_condition_refs(p.flags@[k].1.rules@, i, j, x);
    crate::ast::law_flag_refs_in_all(p, k, x);
    law_undefined_reported(segment_names(p.segments@), all_refs(p), x);
}

} // verus!
