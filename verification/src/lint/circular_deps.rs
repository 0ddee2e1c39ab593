//! Cycles among `@requires` dependencies.
use vstd::prelude::*;
use crate::ast::{FlagDefinition, ParsedFlagfile};
use crate::lint::{findings, LintWarning};
use crate::lint::graph::{deps_views, is_cycle_report, keyed, name_has_cycle, report_cycles, KeyedGraph};
use crate::text::{clone_strings, string_views};

verus! {

/// The flags that require other flags, with what they require, in order of
/// definition.
pub open spec fn requires_pairs(flags: Seq<(String, FlagDefinition)>) -> Seq<
    (Seq<char>, Seq<Seq<char>>),
>
    decreases flags.len(),
{
    if flags.len() == 0 {
        Seq::empty()
    } else {
        let f = flags.last();
        requires_pairs(flags.drop_last()) + if f.1.metadata.requires@.len() > 0 {
            seq![(f.0@, string_views(f.1.metadata.requires@))]
        } else {
            Seq::empty()
        }
    }
}

/// The `@requires` graph: each flag that requires something, keyed by name,
/// with the requirements of its last such definition.
pub open spec fn requires_graph(flags: Seq<(String, FlagDefinition)>) -> (
    Seq<Seq<char>>,
    Seq<Seq<Seq<char>>>,
) {
    keyed(requires_pairs(flags))
}

/// Errors for cycles in the `@requires` graph, each giving a path that
/// closes a cycle; none exactly when the graph has no cycle.
pub fn check(parsed: &ParsedFlagfile) -> (r: Vec<LintWarning>)
    ensures
        r@.len() == 0 <==> !name_has_cycle(
            requires_graph(parsed.flags@).0,
            requires_graph(parsed.flags@).1,
        ),
        forall|i: int|
            0 <= i < r@.len() ==> is_cycle_report(
                requires_graph(parsed.flags@).0,
                requires_graph(parsed.flags@).1,
                "circular dependency: "@,
                #[trigger] findings(r@)[i],
            ),
{
    let flags = &parsed.flags;
    let mut g = KeyedGraph::new();
    let mut i: usize = 0;
    while i < flags.len()
        invariant
            i <= flags@.len(),
            g.wf(),
            (string_views(g.keys@), deps_views(g.deps@)) == keyed(
                requires_pairs(flags@.subrange(0, i as int)),
            ),
        decreases flags@.len() - i,
    {
        let ghost before = requires_pairs(flags@.subrange(0, i as int));
        proof {
            assert(flags@.subrange(0, i + 1).drop_last() =~= flags@.subrange(0, i as int));
        }
        let reqs = &flags[i].1.metadata.requires;
        if reqs.len() > 0 {
            let ghost x = (flags@[i as int].0@, string_views(reqs@));
            proof {
                assert(requires_pairs(flags@.subrange(0, i + 1)) =~= before.push(x));
                assert(before.push(x).drop_last() =~= before);
            }
            g.insert(flags[i].0.as_str(), clone_strings(reqs));
        } else {
            assert(requires_pairs(flags@.subrange(0, i + 1)) =~= before);
        }
        i = i + 1;
    }
    assert(flags@.subrange(0, i as int) =~= flags@);
    report_cycles(&g, "circular dependency: ")
}

} // verus!
