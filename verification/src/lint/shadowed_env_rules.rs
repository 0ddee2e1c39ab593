//! Repeated `@env` blocks.
use vstd::prelude::*;
use crate::ast::{AstNode, FlagDefinition, Rule};
use crate::lint::{finding_if, findings, push_finding, LintLevel, LintWarning};
use crate::text::{concat4, str_eq};

verus! {

/// The environments named by the `@env` rules among `rules`, in order.
pub open spec fn env_names(rules: Seq<Rule<AstNode>>) -> Seq<Seq<char>>
    decreases rules.len(),
{
    if rules.len() == 0 {
        Seq::empty()
    } else {
        env_names(rules.drop_last()) + match rules.last() {
            Rule::EnvRule { env, rules: _ } => seq![env@],
            _ => Seq::empty(),
        }
    }
}

/// A warning for every top-level `@env` rule whose environment an earlier
/// `@env` rule of the same flag already names.
pub open spec fn shadowed_findings(name: Seq<char>, rules: Seq<Rule<AstNode>>) -> Seq<
    (LintLevel, Seq<char>),
>
    decreases rules.len(),
{
    if rules.len() == 0 {
        Seq::empty()
    } else {
        let earlier = rules.drop_last();
        shadowed_findings(name, earlier) + match rules.last() {
            Rule::EnvRule { env, rules: _ } => finding_if(
                env_names(earlier).contains(env@),
                (
                    LintLevel::Warning,
                    name + ": duplicate @env \""@ + env@ + "\" (only the first match is used)"@,
                ),
            ),
            _ => Seq::empty(),
        }
    }
}

/// Whether an earlier rule among the first `upto` is an `@env` rule for `env`.
fn env_seen(rules: &Vec<Rule<AstNode>>, upto: usize, env: &str) -> (b: bool)
    requires
        upto <= rules@.len(),
    ensures
        b == env_names(rules@.subrange(0, upto as int)).contains(env@),
    decreases upto,
{
    if upto == 0 {
        assert(env_names(rules@.subrange(0, 0)) =~= Seq::<Seq<char>>::empty());
        return false;
    }
    let k = upto - 1;
    assert(rules@.subrange(0, upto as int).drop_last() =~= rules@.subrange(0, k as int));
    let here = match &rules[k] {
        Rule::EnvRule { env: e, .. } => str_eq(e.as_str(), env),
        _ => false,
    };
    let earlier = env_seen(rules, k, env);
    proof {
        let s = rules@.subrange(0, upto as int);
        let tail: Seq<Seq<char>> = match s.last() {
            Rule::EnvRule { env: e, rules: _ } => seq![e@],
            _ => Seq::empty(),
        };
        assert(env_names(s) == env_names(rules@.subrange(0, k as int)) + tail);
        if here {
            assert(env_names(s)[env_names(rules@.subrange(0, k as int)).len() as int] == env@);
        }
        if earlier {
            let j = choose|j: int|
                0 <= j < env_names(rules@.subrange(0, k as int)).len() && env_names(
                    rules@.subrange(0, k as int),
                )[j] == env@;
            assert(env_names(s)[j] == env@);
        }
        if env_names(s).contains(env@) {
            let j = choose|j: int| 0 <= j < env_names(s).len() && env_names(s)[j] == env@;
            if j < env_names(rules@.subrange(0, k as int)).len() {
                assert(env_names(rules@.subrange(0, k as int))[j] == env@);
            }
        }
    }
    here || earlier
}

/// Warnings for top-level `@env` rules that repeat an earlier environment:
/// only the first of them is ever used.
pub fn check(name: &str, def: &FlagDefinition) -> (r: Vec<LintWarning>)
    ensures
        findings(r@) == shadowed_findings(name@, def.rules@),
{
    let rules = &def.rules;
    let mut warnings: Vec<LintWarning> = Vec::new();
    let mut i: usize = 0;
    while i < rules.len()
        invariant
            i <= rules@.len(),
            findings(warnings@) == shadowed_findings(name@, rules@.subrange(0, i as int)),
        decreases rules@.len() - i,
    {
        proof {
            assert(rules@.subrange(0, i + 1).drop_last() =~= rules@.subrange(0, i as int));
        }
        if let Rule::EnvRule { env, .. } = &rules[i] {
            if env_seen(rules, i, env.as_str()) {
                push_finding(
                    &mut warnings,
                    LintWarning::warn(
                        concat4(
                            name,
                            ": duplicate @env \"",
                            env.as_str(),
                            "\" (only the first match is used)",
                        ),
                    ),
                );
            }
        }
        i = i + 1;
    }
    assert(rules@.subrange(0, i as int) =~= rules@);
    warnings
}

} // verus!
