//! Flags whose rules return values of different types.
use vstd::prelude::*;
use crate::ast::{AstNode, FlagDefinition, FlagReturn, Rule};
use crate::lint::{finding_if, findings, push_finding, LintLevel, LintWarning};
use crate::text::{chars_of, concat2, join_chars, join_with, string_of, views};

verus! {

/// The four kinds of return value, in alphabetical order of their names.
pub open spec fn kind_of(ret: FlagReturn) -> int {
    match ret {
        FlagReturn::OnOff(_) => 0,
        FlagReturn::Integer(_) => 1,
        FlagReturn::Json(_) => 2,
        FlagReturn::Str(_) => 3,
    }
}

/// The name of a kind of return value.
pub open spec fn kind_name(k: int) -> Seq<char> {
    if k == 0 {
        "boolean"@
    } else if k == 1 {
        "integer"@
    } else if k == 2 {
        "json"@
    } else {
        "string"@
    }
}

/// Whether some rule, inside `@env` blocks too, returns a value of kind `k`.
pub open spec fn returns_kind(rules: Seq<Rule<AstNode>>, k: int) -> bool
    decreases rules,
{
    if rules.len() == 0 {
        false
    } else {
        returns_kind(rules.drop_last(), k) || rule_returns_kind(rules.last(), k)
    }
}

/// Whether a rule, or a rule inside it, returns a value of kind `k`.
pub open spec fn rule_returns_kind(r: Rule<AstNode>, k: int) -> bool
    decreases r,
{
    match r {
        Rule::Value(ret) => kind_of(ret) == k,
        Rule::BoolExpressionValue(_, ret) => kind_of(ret) == k,
        Rule::EnvRule { env: _, rules: sub } => returns_kind(sub@, k),
    }
}

/// The names of the kinds returned by the rules, in alphabetical order.
pub open spec fn kind_names(rules: Seq<Rule<AstNode>>) -> Seq<Seq<char>> {
    (if returns_kind(rules, 0) { seq![kind_name(0)] } else { Seq::empty() }) + (if returns_kind(
        rules,
        1,
    ) {
        seq![kind_name(1)]
    } else {
        Seq::empty()
    }) + (if returns_kind(rules, 2) { seq![kind_name(2)] } else { Seq::empty() }) + (
    if returns_kind(rules, 3) {
        seq![kind_name(3)]
    } else {
        Seq::empty()
    })
}

/// The kind of a return value.
fn kind_index(ret: &FlagReturn) -> (k: usize)
    ensures
        k == kind_of(*ret),
{
    match ret {
        FlagReturn::OnOff(_) => 0,
        FlagReturn::Integer(_) => 1,
        FlagReturn::Json(_) => 2,
        FlagReturn::Str(_) => 3,
    }
}

/// Record in `seen` the kinds returned by `rules`.
fn collect_return_types(rules: &Vec<Rule<AstNode>>, seen: &mut Vec<bool>)
    requires
        old(seen)@.len() == 4,
    ensures
        final(seen)@.len() == 4,
        forall|k: int|
            #![trigger final(seen)@[k]]
            0 <= k < 4 ==> final(seen)@[k] == (old(seen)@[k] || returns_kind(rules@, k)),
    decreases rules,
{
    let mut i: usize = 0;
    while i < rules.len()
        invariant
            i <= rules@.len(),
            seen@.len() == 4,
            forall|k: int|
                0 <= k < 4 ==> seen@[k] == (old(seen)@[k] || returns_kind(
                    rules@.subrange(0, i as int),
                    k,
                )),
        decreases rules@.len() - i,
    {
        proof {
            assert(rules@.subrange(0, i + 1).drop_last() =~= rules@.subrange(0, i as int));
            assert(rules@.subrange(0, i + 1).last() == rules@[i as int]);
            assert forall|k: int| 0 <= k < 4 implies returns_kind(rules@.subrange(0, i + 1), k) == (
            returns_kind(rules@.subrange(0, i as int), k) || rule_returns_kind(rules@[i as int], k)) by {}
        }
        let ghost before = seen@;
        match &rules[i] {
            Rule::Value(ret) => {
                let k = kind_index(ret);
                seen.set(k, true);
                assert forall|j: int| 0 <= j < 4 implies rule_returns_kind(rules@[i as int], j) == (j
                    == k) by {}
                assert(seen@ == before.update(k as int, true));
            },
            Rule::BoolExpressionValue(_, ret) => {
                let k = kind_index(ret);
                seen.set(k, true);
                assert forall|j: int| 0 <= j < 4 implies rule_returns_kind(rules@[i as int], j) == (j
                    == k) by {}
                assert(seen@ == before.update(k as int, true));
            },
            Rule::EnvRule { rules: sub, .. } => {
                proof {
                    assert(decreases_to!(*rules => rules@));
                    assert(decreases_to!(rules@ => rules@[i as int]));
                    assert(decreases_to!(rules@[i as int] => rules@[i as int]->EnvRule_rules));
                }
                collect_return_types(sub, seen);
                assert(forall|k: int| 0 <= k < 4 ==> seen@[k] == (before[k] || returns_kind(sub@, k)));
                assert forall|j: int| 0 <= j < 4 implies rule_returns_kind(rules@[i as int], j)
                    == returns_kind(sub@, j) by {}
            },
        }
        assert forall|k: int| 0 <= k < 4 implies seen@[k] == (before[k] || rule_returns_kind(
            rules@[i as int],
            k,
        )) by {}
        i = i + 1;
    }
    assert(rules@.subrange(0, i as int) =~= rules@);
}

/// A warning listing the kinds of value a flag's rules return, when there
/// is more than one.
pub open spec fn findings_of(name: Seq<char>, def: FlagDefinition) -> Seq<(LintLevel, Seq<char>)> {
    finding_if(
        kind_names(def.rules@).len() > 1,
        (
            LintLevel::Warning,
            name + ": mixed return types across rules: "@ + join_with(kind_names(def.rules@), ", "@),
        ),
    )
}

/// A warning listing the kinds of value a flag's rules return, when there
/// is more than one.
pub fn check(name: &str, def: &FlagDefinition) -> (r: Vec<LintWarning>)
    ensures
        findings(r@) == findings_of(name@, *def),
{
    let mut seen: Vec<bool> = Vec::new();
    seen.push(false);
    seen.push(false);
    seen.push(false);
    seen.push(false);
    collect_return_types(&def.rules, &mut seen);
    let mut names: Vec<Vec<char>> = Vec::new();
    if seen[0] {
        names.push(chars_of("boolean"));
    }
    if seen[1] {
        names.push(chars_of("integer"));
    }
    if seen[2] {
        names.push(chars_of("json"));
    }
    if seen[3] {
        names.push(chars_of("string"));
    }
    assert(views(names@) =~= kind_names(def.rules@));
    let mut warnings: Vec<LintWarning> = Vec::new();
    if names.len() > 1 {
        let list = string_of(&join_chars(&names, &chars_of(", ")));
        push_finding(
            &mut warnings,
            LintWarning::warn(concat2(
                concat2(name, ": mixed return types across rules: ").as_str(),
                list.as_str(),
            )),
        );
    }
    assert(findings(Seq::<LintWarning>::empty()) =~= Seq::empty());
    warnings
}

} // verus!
