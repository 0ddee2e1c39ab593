//! Cycles among segment references.
use vstd::prelude::*;
use crate::ast::{collect_node_refs, node_refs, AstNode, ParsedFlagfile};
use crate::lint::{findings, LintWarning};
use crate::lint::graph::{deps_views, is_cycle_report, keyed, name_has_cycle, report_cycles, KeyedGraph};
use crate::text::string_views;

verus! {

/// Each segment with the segments its expression references.
pub open spec fn segment_pairs(segments: Seq<(String, AstNode)>) -> Seq<
    (Seq<char>, Seq<Seq<char>>),
>
    decreases segments.len(),
{
    if segments.len() == 0 {
        Seq::empty()
    } else {
        let s = segments.last();
        segment_pairs(segments.drop_last()).push((s.0@, node_refs(s.1)))
    }
}

/// The segment graph: each segment, keyed by name, with the segments that
/// its (last) definition references.
pub open spec fn segment_graph(segments: Seq<(String, AstNode)>) -> (
    Seq<Seq<char>>,
    Seq<Seq<Seq<char>>>,
) {
    keyed(segment_pairs(segments))
}

/// Errors for cycles among segments that reference each other, each giving
/// a path that closes a cycle; none exactly when there is no such cycle.
pub fn check(parsed: &ParsedFlagfile) -> (r: Vec<LintWarning>)
    ensures
        r@.len() == 0 <==> !name_has_cycle(
            segment_graph(parsed.segments@).0,
            segment_graph(parsed.segments@).1,
        ),
        forall|i: int|
            0 <= i < r@.len() ==> is_cycle_report(
                segment_graph(parsed.segments@).0,
                segment_graph(parsed.segments@).1,
                "circular segment dependency: "@,
                #[trigger] findings(r@)[i],
            ),
{
    let segments = &parsed.segments;
    let mut g = KeyedGraph::new();
    let mut i: usize = 0;
    while i < segments.len()
        invariant
            i <= segments@.len(),
            g.wf(),
            (string_views(g.keys@), deps_views(g.deps@)) == keyed(
                segment_pairs(segments@.subrange(0, i as int)),
            ),
        decreases segments@.len() - i,
    {
        let ghost before = segment_pairs(segments@.subrange(0, i as int));
        let mut refs: Vec<String> = Vec::new();
        collect_node_refs(&segments[i].1, &mut refs);
        let ghost x = (segments@[i as int].0@, node_refs(segments@[i as int].1));
        proof {
            assert(segments@.subrange(0, i + 1).drop_last() =~= segments@.subrange(0, i as int));
            assert(string_views(Seq::<String>::empty()) =~= Seq::<Seq<char>>::empty());
            assert(string_views(refs@) =~= node_refs(segments@[i as int].1));
            assert(segment_pairs(segments@.subrange(0, i + 1)) =~= before.push(x));
            assert(before.push(x).drop_last() =~= before);
        }
        g.insert(segments[i].0.as_str(), refs);
        i = i + 1;
    }
    assert(segments@.subrange(0, i as int) =~= segments@);
    report_cycles(&g, "circular segment dependency: ")
}

} // verus!
