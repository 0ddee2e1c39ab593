//! Lint checks over a parsed Flagfile, and the findings they report.
pub mod deprecated;
pub mod deprecated_no_expiry;
pub mod empty_flag;
pub mod experiment_no_expiry;
pub mod missing_owner;
pub mod missing_default;
pub mod env_missing_default;
pub mod expired;
pub mod duplicate_requires;
pub mod unreachable_rules;
pub mod shadowed_env_rules;
pub mod tautology;
pub mod mixed_return_types;
pub mod redundant_function;
pub mod duplicate_flags;
pub mod undefined_requires;
pub mod unused_segments;
pub mod undefined_segment;
pub mod graph;
pub mod circular_deps;
pub mod circular_segments;

use vstd::prelude::*;
use crate::ast::{flag_names, all_refs, segment_names, FlagDefinition, ParsedFlagfile};
use crate::lint::graph::{is_cycle_report, name_has_cycle};
use crate::text::string_views;

verus! {

/// The severity of a lint finding.
#[derive(Debug, Clone, Copy, PartialEq, Eq, Structural)]
pub enum LintLevel {
    Warning,
    Error,
}

/// One lint finding.
#[derive(Debug)]
pub struct LintWarning {
    pub level: LintLevel,
    pub message: String,
}

impl LintWarning {
    /// A warning with the given message.
    pub fn warn(message: String) -> (r: Self)
        ensures
            r.level == LintLevel::Warning,
            r.message@ == message@,
    {
        LintWarning { level: LintLevel::Warning, message }
    }

    /// An error with the given message.
    pub fn error(message: String) -> (r: Self)
        ensures
            r.level == LintLevel::Error,
            r.message@ == message@,
    {
        LintWarning { level: LintLevel::Error, message }
    }
}

/// A finding as a pair of its level and its message.
pub open spec fn findings(ws: Seq<LintWarning>) -> Seq<(LintLevel, Seq<char>)> {
    ws.map_values(|w: LintWarning| (w.level, w.message@))
}

/// The findings of a check that reports `f` when `c` holds.
pub open spec fn finding_if(c: bool, f: (LintLevel, Seq<char>)) -> Seq<(LintLevel, Seq<char>)> {
    if c {
        seq![f]
    } else {
        Seq::empty()
    }
}

/// Append a finding.
pub fn push_finding(ws: &mut Vec<LintWarning>, w: LintWarning)
    ensures
        findings(final(ws)@) == findings(old(ws)@).push((w.level, w.message@)),
        final(ws)@.len() == old(ws)@.len() + 1,
{
    let ghost before = ws@;
    let ghost f = (w.level, w.message@);
    ws.push(w);
    assert(findings(ws@) =~= findings(before).push(f));
}

/// Append all findings of `more`.
pub fn extend_findings(ws: &mut Vec<LintWarning>, more: Vec<LintWarning>)
    ensures
        findings(final(ws)@) == findings(old(ws)@) + findings(more@),
{
    let mut more = more;
    let ghost before = ws@;
    let ghost m = more@;
    ws.append(&mut more);
    assert(findings(ws@) =~= findings(before) + findings(m));
}

/// Findings as the cycle checks report them: none exactly when the graph
/// has no cycle, and each giving a path that closes a cycle.
pub open spec fn cycle_reports(
    g: (Seq<Seq<char>>, Seq<Seq<Seq<char>>>),
    prefix: Seq<char>,
    c: Seq<(LintLevel, Seq<char>)>,
) -> bool {
    &&& (c.len() == 0 <==> !name_has_cycle(g.0, g.1))
    &&& forall|i: int| 0 <= i < c.len() ==> is_cycle_report(g.0, g.1, prefix, #[trigger] c[i])
}

/// The findings of the per-flag checks for one flag, in the order they run;
/// `rates` are those of the percentage-rate check for that flag.
pub open spec fn flag_findings(
    name: Seq<char>,
    def: FlagDefinition,
    today: int,
    rates: Seq<(LintLevel, Seq<char>)>,
) -> Seq<(LintLevel, Seq<char>)> {
    deprecated::findings_of(name, def) + expired::findings_of(name, def, today)
        + missing_owner::findings_of(name, def) + experiment_no_expiry::findings_of(name, def)
        + deprecated_no_expiry::findings_of(name, def) + unreachable_rules::findings_of(name, def)
        + missing_default::findings_of(name, def) + mixed_return_types::findings_of(name, def)
        + empty_flag::findings_of(name, def) + duplicate_requires::duplicate_requires_findings(
        name,
        string_views(def.metadata.requires@),
    ) + rates + tautology::tautology_findings(name, def.rules@)
        + redundant_function::redundant_in_rules(name, def.rules@)
        + env_missing_default::findings_of(name, def) + shadowed_env_rules::shadowed_findings(
        name,
        def.rules@,
    )
}

/// The per-flag findings of every flag in turn.
pub open spec fn all_flag_findings(
    flags: Seq<(String, FlagDefinition)>,
    today: int,
    rates: Seq<Vec<LintWarning>>,
) -> Seq<(LintLevel, Seq<char>)>
    decreases flags.len(),
{
    if flags.len() == 0 {
        Seq::empty()
    } else {
        all_flag_findings(flags.drop_last(), today, rates.drop_last()) + flag_findings(
            flags.last().0@,
            flags.last().1,
            today,
            findings(rates.last()@),
        )
    }
}

/// The per-flag checks for one flag, in order, with the percentage-rate
/// findings `rates` of that flag in their place.
pub fn lint_flag(name: &str, def: &FlagDefinition, today: i32, rates: Vec<LintWarning>) -> (r: Vec<
    LintWarning,
>)
    ensures
        findings(r@) == flag_findings(name@, *def, today as int, findings(rates@)),
{
    let mut w: Vec<LintWarning> = Vec::new();
    let ghost f0 = findings(w@);
    assert(f0 =~= Seq::empty());
    extend_findings(&mut w, deprecated::check(name, def));
    extend_findings(&mut w, expired::check(name, def, today));
    extend_findings(&mut w, missing_owner::check(name, def));
    extend_findings(&mut w, experiment_no_expiry::check(name, def));
    extend_findings(&mut w, deprecated_no_expiry::check(name, def));
    extend_findings(&mut w, unreachable_rules::check(name, def));
    extend_findings(&mut w, missing_default::check(name, def));
    extend_findings(&mut w, mixed_return_types::check(name, def));
    extend_findings(&mut w, empty_flag::check(name, def));
    extend_findings(&mut w, duplicate_requires::check(name, def));
    extend_findings(&mut w, rates);
    extend_findings(&mut w, tautology::check(name, def));
    extend_findings(&mut w, redundant_function::check(name, def));
    extend_findings(&mut w, env_missing_default::check(name, def));
    extend_findings(&mut w, shadowed_env_rules::check(name, def));
    assert(findings(w@) =~= flag_findings(name@, *def, today as int, findings(rates@)));
    w
}

/// Every finding for a parsed Flagfile, in the order the checks run: the
/// checks over the whole file (duplicate flags, `@requires` cycles, segment
/// cycles, unused segments, undefined `@requires`, undefined segments),
/// then the per-flag checks for each flag in turn. `today` is a day number
/// as in `FlagMetadata::expires`; `rates[i]` are the percentage-rate
/// findings of the `i`-th flag.
pub fn lint_all(parsed: &ParsedFlagfile, today: i32, rates: Vec<Vec<LintWarning>>) -> (r: Vec<
    LintWarning,
>)
    requires
        rates@.len() == parsed.flags@.len(),
    ensures
        exists|c1: Seq<(LintLevel, Seq<char>)>, c2: Seq<(LintLevel, Seq<char>)>|
            cycle_reports(
                circular_deps::requires_graph(parsed.flags@),
                "circular dependency: "@,
                c1,
            ) && cycle_reports(
                circular_segments::segment_graph(parsed.segments@),
                "circular segment dependency: "@,
                c2,
            ) && findings(r@) == duplicate_flags::duplicate_flag_findings(flag_names(parsed.flags@))
                + c1 + c2 + unused_segments::unused_findings(
                all_refs(*parsed),
                segment_names(parsed.segments@),
            ) + undefined_requires::undefined_requires_findings(
                flag_names(parsed.flags@),
                parsed.flags@,
            ) + undefined_segment::undefined_segment_findings(
                segment_names(parsed.segments@),
                all_refs(*parsed),
            ) + all_flag_findings(parsed.flags@, today as int, rates@),
{
    let ghost rates0 = rates@;
    let mut w: Vec<LintWarning> = Vec::new();
    assert(findings(w@) =~= Seq::empty());
    extend_findings(&mut w, duplicate_flags::check(parsed));
    let cd = circular_deps::check(parsed);
    let ghost c1 = findings(cd@);
    extend_findings(&mut w, cd);
    let cs = circular_segments::check(parsed);
    let ghost c2 = findings(cs@);
    extend_findings(&mut w, cs);
    extend_findings(&mut w, unused_segments::check(parsed));
    extend_findings(&mut w, undefined_requires::check(parsed));
    extend_findings(&mut w, undefined_segment::check(parsed));
    let ghost global = findings(w@);
    let mut rates = rates;
    let mut i: usize = 0;
    while i < parsed.flags.len()
        invariant
            i <= parsed.flags@.len(),
            rates0.len() == parsed.flags@.len(),
            rates@.len() + i == rates0.len(),
            findings(w@) == global + all_flag_findings(
                parsed.flags@.subrange(0, i as int),
                today as int,
                rates0.subrange(0, i as int),
            ),
            rates@ == rates0.subrange(i as int, rates0.len() as int),
        decreases parsed.flags@.len() - i,
    {
        proof {
            assert(parsed.flags@.subrange(0, i + 1).drop_last() =~= parsed.flags@.subrange(
                0,
                i as int,
            ));
            assert(rates0.subrange(0, i + 1).drop_last() =~= rates0.subrange(0, i as int));
        }
        let r = rates.remove(0);
        assert(r == rates0[i as int]);
        let flag_w = lint_flag(parsed.flags[i].0.as_str(), &parsed.flags[i].1, today, r);
        extend_findings(&mut w, flag_w);
        i = i + 1;
    }
    assert(parsed.flags@.subrange(0, i as int) =~= parsed.flags@);
    assert(rates0.subrange(0, i as int) =~= rates0);
    assert(cycle_reports(circular_deps::requires_graph(parsed.flags@), "circular dependency: "@, c1));
    assert(cycle_reports(
        circular_segments::segment_graph(parsed.segments@),
        "circular segment dependency: "@,
        c2,
    ));
    w
}

} // verus!
