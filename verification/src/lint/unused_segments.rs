//! Segments that nothing references.
use vstd::prelude::*;
use crate::ast::{all_refs, collect_all_refs, segment_name_list, segment_names, ParsedFlagfile};
use crate::lint::{finding_if, findings, push_finding, LintLevel, LintWarning};
use crate::text::{concat3, contains_str, string_views};

verus! {

/// A warning for every segment, in order, whose name is not among `used`.
pub open spec fn unused_findings(used: Seq<Seq<char>>, names: Seq<Seq<char>>) -> Seq<
    (LintLevel, Seq<char>),
>
    decreases names.len(),
{
    if names.len() == 0 {
        Seq::empty()
    } else {
        unused_findings(used, names.drop_last()) + finding_if(
            !used.contains(names.last()),
            (LintLevel::Warning, "segment \""@ + names.last() + "\" is defined but never used"@),
        )
    }
}

/// Warnings for segments that no flag and no other segment references.
pub fn check(parsed: &ParsedFlagfile) -> (r: Vec<LintWarning>)
    ensures
        findings(r@) == unused_findings(all_refs(*parsed), segment_names(parsed.segments@)),
{
    let used = collect_all_refs(parsed);
    let names = segment_name_list(&parsed.segments);
    let mut warnings: Vec<LintWarning> = Vec::new();
    let mut i: usize = 0;
    while i < names.len()
        invariant
            i <= names@.len(),
            string_views(used@) == all_refs(*parsed),
            findings(warnings@) == unused_findings(
                all_refs(*parsed),
                string_views(names@.subrange(0, i as int)),
            ),
        decreases names@.len() - i,
    {
        proof {
            assert(string_views(names@.subrange(0, i + 1)).drop_last() =~= string_views(
                names@.subrange(0, i as int),
            ));
        }
        if !contains_str(&used, names[i].as_str()) {
            push_finding(
                &mut warnings,
                LintWarning::warn(
                    concat3("segment \"", names[i].as_str(), "\" is defined but never used"),
                ),
            );
        }
        i = i + 1;
    }
    assert(string_views(names@.subrange(0, i as int)) =~= string_views(names@));
    warnings
}

/// The message for an unused segment `n`.
pub open spec fn unused_message(n: Seq<char>) -> Seq<char> {
    "segment \""@ + n + "\" is defined but never used"@
}

proof fn lemma_unused_names(used: Seq<Seq<char>>, names: Seq<Seq<char>>, j: int)
    requires
        0 <= j < unused_findings(used, names).len(),
    ensures
        exists|n: Seq<char>|
            !used.contains(n) && #[trigger] unused_message(n) == unused_findings(used, names)[j].1,
    decreases names.len(),
{
    let front = unused_findings(used, names.drop_last());
    if j < front.len() {
        lemma_unused_names(used, names.drop_last(), j);
        assert(unused_findings(used, names)[j] == front[j]);
    } else {
        assert(unused_findings(used, names)[j].1 == unused_message(names.last()));
    }
}

proof fn lemma_unused_message_injective(a: Seq<char>, b: Seq<char>)
    requires
        unused_message(a) == unused_message(b),
    ensures
        a == b,
{
    let p = "segment \""@;
    let q = "\" is defined but never used"@;
    assert(unused_message(a).len() == p.len() + a.len() + q.len());
    assert(a.len() == b.len());
    assert(unused_message(a).subrange(p.len() as int, (p.len() + a.len()) as int) =~= a);
    assert(unused_message(b).subrange(p.len() as int, (p.len() + b.len()) as int) =~= b);
}

/// A segment that any reference of the Flagfile names (a flag's condition,
/// one inside an `@env` block included, or another segment) is never
/// reported as unused.
pub proof fn law_referenced_segment_not_unused(p: ParsedFlagfile, x: Seq<char>)
    requires
        all_refs(p).contains(x),
    ensures
        forall|j: int|
            0 <= j < unused_findings(all_refs(p), segment_names(p.segments@)).len() ==> (
            #[trigger] unused_findings(all_refs(p), segment_names(p.segments@))[j]).1 != unused_message(x),
{
    assert forall|j: int|
        0 <= j < unused_findings(all_refs(p), segment_names(p.segments@)).len() implies (
        #[trigger] unused_findings(all_refs(p), segment_names(p.segments@))[j]).1 != unused_message(x) by {
        lemma_unused_names(all_refs(p), segment_names(p.segments@), j);
        let n = choose|n: Seq<char>|
            !all_refs(p).contains(n) && #[trigger] unused_message(n) == unused_findings(
                all_refs(p),
                segment_names(p.segments@),
            )[j].1;
        if unused_message(n) == unused_message(x) {
            lemma_unused_message_injective(n, x);
        }
    }
}

/// A segment named only by a condition inside an `@env` block of a flag is
/// still counted as used: it gets no unused-segment warning.
pub proof fn law_env_segment_not_unused(p: ParsedFlagfile, k: int, i: int, j: int, x: Seq<char>)
    requires
        0 <= k < p.flags@.len(),
        0 <= i < p.flags@[k].1.rules@.len(),
        p.flags@[k].1.rules@[i] matches crate::ast::Rule::EnvRule { env: _, rules: sub } && 0 <= j
            < sub@.len() && (sub@[j] matches crate::ast::Rule::BoolExpressionValue(e, _)
            && crate::ast::node_refs(e).contains(x)),
    ensures
        forall|m: int|
            0 <= m < unused_findings(all_refs(p), segment_names(p.segments@)).len() ==> (
            #[trigger] unused_findings(all_refs(p), segment_names(p.segments@))[m]).1 != unused_message(x),
{
    crate::ast::law_env_condition_refs(p.flags@[k].1.rules@, i, j, x);
    crate::ast::law_flag_refs_in_all(p, k, x);
    law_referenced_segment_not_unused(p, x);
}

} // verus!
