//! Evaluating a flag once its conditions are known, and comparing the
//! result with the value a test expects.
use vstd::prelude::*;
use crate::ast::{FlagReturn, Rule};
use crate::num::{i64_value, parse_i64_of};
use crate::text::{
    chars_of, opt_str, slice_of, str_eq, string_of, to_upper, upper_text,
};

verus! {

/// A flag as evaluated against one context: its name, the flags it
/// requires, and its rules with each condition replaced by whether it
/// holds in that context.
pub struct EvalFlag {
    pub name: String,
    pub requires: Vec<String>,
    pub rules: Vec<Rule<bool>>,
}

/// The value of the first rule that applies: a rule whose condition holds,
/// an unconditional value, or an `@env` block for the active environment
/// that yields a value (one that yields none is passed over).
pub open spec fn rules_value(rules: Seq<Rule<bool>>, env: Option<Seq<char>>) -> Option<FlagReturn>
    decreases rules,
{
    if rules.len() == 0 {
        None
    } else {
        match rules[0] {
            Rule::BoolExpressionValue(holds, ret) => if holds {
                Some(ret)
            } else {
                rules_value(rules.drop_first(), env)
            },
            Rule::Value(ret) => Some(ret),
            Rule::EnvRule { env: e, rules: sub } => if env == Some(e@) && rules_value(sub@, env) is Some {
                rules_value(sub@, env)
            } else {
                rules_value(rules.drop_first(), env)
            },
        }
    }
}

/// A flag whose last rule is an unconditional value yields a value in
/// every context and environment.
pub proof fn law_default_always_applies(rules: Seq<Rule<bool>>, env: Option<Seq<char>>)
    requires
        rules.len() > 0,
        rules.last() is Value,
    ensures
        rules_value(rules, env) is Some,
    decreases rules.len(),
{
    if rules.len() > 1 {
        match rules[0] {
            Rule::Value(_) => {},
            _ => {
                assert(rules.drop_first().last() == rules.last());
                law_default_always_applies(rules.drop_first(), env);
            },
        }
    }
}

/// Rules after an unconditional value are never reached: appending rules
/// after it does not change the value of a flag.
pub proof fn law_rules_after_default_unreachable(
    head: Seq<Rule<bool>>,
    tail: Seq<Rule<bool>>,
    env: Option<Seq<char>>,
)
    requires
        head.len() > 0,
        head.last() is Value,
    ensures
        rules_value(head + tail, env) == rules_value(head, env),
    decreases head.len(),
{
    assert((head + tail)[0] == head[0]);
    if head.len() > 1 {
        assert((head + tail).drop_first() =~= head.drop_first() + tail);
        assert(head.drop_first().last() == head.last());
        law_rules_after_default_unreachable(head.drop_first(), tail, env);
    }
}

/// A copy of a return value.
pub fn copy_return(r: &FlagReturn) -> (c: FlagReturn)
    ensures
        c == *r,
{
    match r {
        FlagReturn::OnOff(b) => FlagReturn::OnOff(*b),
        FlagReturn::Integer(n) => FlagReturn::Integer(*n),
        FlagReturn::Str(s) => FlagReturn::Str(s.clone()),
        FlagReturn::Json(s) => FlagReturn::Json(s.clone()),
    }
}

/// The value of a flag's rules under the active environment `env`
/// (see `rules_value`).
pub fn evaluate_rules_with_env(rules: &Vec<Rule<bool>>, env: Option<&str>) -> (r: Option<FlagReturn>)
    ensures
        r == rules_value(rules@, opt_str(env)),
    decreases rules,
{
    let ghost ev = opt_str(env);
    let mut i: usize = 0;
    assert(rules@.subrange(0, rules@.len() as int) =~= rules@);
    while i < rules.len()
        invariant
            i <= rules@.len(),
            ev == opt_str(env),
            rules_value(rules@, ev) == rules_value(rules@.subrange(i as int, rules@.len() as int), ev),
        decreases rules@.len() - i,
    {
        let ghost rest = rules@.subrange(i as int, rules@.len() as int);
        proof {
            assert(rest[0] == rules@[i as int]);
            assert(rest.drop_first() =~= rules@.subrange(i + 1, rules@.len() as int));
        }
        match &rules[i] {
            Rule::BoolExpressionValue(holds, ret) => {
                if *holds {
                    return Some(copy_return(ret));
                }
            },
            Rule::Value(ret) => {
                return Some(copy_return(ret));
            },
            Rule::EnvRule { env: e, rules: sub } => {
                let active = match env {
                    Some(x) => str_eq(x, e.as_str()),
                    None => false,
                };
                if active {
                    proof {
                        assert(decreases_to!(*rules => rules@));
                        assert(decreases_to!(rules@ => rules@[i as int]));
                        assert(decreases_to!(rules@[i as int] => rules@[i as int]->EnvRule_rules));
                    }
                    let r = evaluate_rules_with_env(sub, env);
                    if r.is_some() {
                        return r;
                    }
                }
            },
        }
        i = i + 1;
    }
    None
}

/// The last definition of the flag `name`.
pub open spec fn lookup(flags: Seq<EvalFlag>, name: Seq<char>) -> Option<EvalFlag>
    decreases flags.len(),
{
    if flags.len() == 0 {
        None
    } else if flags.last().name@ == name {
        Some(flags.last())
    } else {
        lookup(flags.drop_last(), name)
    }
}

/// The required flag `name` exists and its rules give `true`.
pub open spec fn requirement_met(flags: Seq<EvalFlag>, name: Seq<char>, env: Option<Seq<char>>) -> bool {
    match lookup(flags, name) {
        Some(f) => rules_value(f.rules@, env) == Some(FlagReturn::OnOff(true)),
        None => false,
    }
}

/// The value of the flag `name`: `None` when it is not defined, when one of
/// the flags it requires is missing or does not give `true`, or when no rule
/// applies.
pub open spec fn flag_value(flags: Seq<EvalFlag>, name: Seq<char>, env: Option<Seq<char>>) -> Option<
    FlagReturn,
> {
    match lookup(flags, name) {
        None => None,
        Some(f) => if forall|i: int|
            0 <= i < f.requires@.len() ==> requirement_met(flags, #[trigger] f.requires@[i]@, env) {
            rules_value(f.rules@, env)
        } else {
            None
        },
    }
}

/// The position of the last definition of the flag `name`.
pub fn find_flag(flags: &Vec<EvalFlag>, name: &str) -> (r: Option<usize>)
    ensures
        match r {
            Some(i) => i < flags@.len() && lookup(flags@, name@) == Some(flags@[i as int]),
            None => lookup(flags@, name@) is None,
        },
{
    let mut k = flags.len();
    assert(flags@.subrange(0, k as int) =~= flags@);
    while k > 0
        invariant
            k <= flags@.len(),
            lookup(flags@, name@) == lookup(flags@.subrange(0, k as int), name@),
        decreases k,
    {
        let j = k - 1;
        proof {
            assert(flags@.subrange(0, k as int).last() == flags@[j as int]);
            assert(flags@.subrange(0, k as int).drop_last() =~= flags@.subrange(0, j as int));
        }
        if str_eq(flags[j].name.as_str(), name) {
            return Some(j);
        }
        k = j;
    }
    None
}

/// The value of the flag `flag_name` (see `flag_value`).
pub fn evaluate_flag_with_env(flag_name: &str, flags: &Vec<EvalFlag>, env: Option<&str>) -> (r: Option<
    FlagReturn,
>)
    ensures
        r == flag_value(flags@, flag_name@, opt_str(env)),
{
    let idx = match find_flag(flags, flag_name) {
        Some(i) => i,
        None => {
            return None;
        },
    };
    let f = &flags[idx];
    let mut j: usize = 0;
    while j < f.requires.len()
        invariant
            j <= f.requires@.len(),
            lookup(flags@, flag_name@) == Some(*f),
            forall|m: int| 0 <= m < j ==> requirement_met(flags@, #[trigger] f.requires@[m]@, opt_str(env)),
        decreases f.requires@.len() - j,
    {
        let req = f.requires[j].as_str();
        match find_flag(flags, req) {
            None => {
                return None;
            },
            Some(ri) => {
                let v = evaluate_rules_with_env(&flags[ri].rules, env);
                let ok = match v {
                    Some(FlagReturn::OnOff(b)) => b,
                    _ => false,
                };
                if !ok {
                    return None;
                }
            },
        }
        j = j + 1;
    }
    evaluate_rules_with_env(&f.rules, env)
}

// ── Evaluation with a reason ───────────────────────────────────────

/// Like `rules_value`, with the reason the value was chosen: `TARGETING_MATCH`
/// for a rule whose condition holds, `DEFAULT` for an unconditional value.
pub open spec fn rules_outcome(rules: Seq<Rule<bool>>, env: Option<Seq<char>>) -> Option<
    (FlagReturn, Seq<char>),
>
    decreases rules,
{
    if rules.len() == 0 {
        None
    } else {
        match rules[0] {
            Rule::BoolExpressionValue(holds, ret) => if holds {
                Some((ret, "TARGETING_MATCH"@))
            } else {
                rules_outcome(rules.drop_first(), env)
            },
            Rule::Value(ret) => Some((ret, "DEFAULT"@)),
            Rule::EnvRule { env: e, rules: sub } => if env == Some(e@) && rules_outcome(sub@, env) is Some {
                rules_outcome(sub@, env)
            } else {
                rules_outcome(rules.drop_first(), env)
            },
        }
    }
}

/// The value part of an outcome.
pub open spec fn outcome_value(o: Option<(FlagReturn, Seq<char>)>) -> Option<FlagReturn> {
    match o {
        Some(p) => Some(p.0),
        None => None,
    }
}

/// Evaluating with a reason gives the same value as evaluating without one.
pub proof fn law_reason_keeps_value(rules: Seq<Rule<bool>>, env: Option<Seq<char>>)
    ensures
        outcome_value(rules_outcome(rules, env)) == rules_value(rules, env),
    decreases rules,
{
    if rules.len() > 0 {
        match rules[0] {
            Rule::BoolExpressionValue(holds, ret) => {
                law_reason_keeps_value(rules.drop_first(), env);
            },
            Rule::Value(ret) => {},
            Rule::EnvRule { env: e, rules: sub } => {
                assert(decreases_to!(rules => rules[0]));
                law_reason_keeps_value(sub@, env);
                law_reason_keeps_value(rules.drop_first(), env);
            },
        }
    }
}

/// The outcome, with its reason, of the flag `name` (see `flag_value`).
pub open spec fn flag_outcome(flags: Seq<EvalFlag>, name: Seq<char>, env: Option<Seq<char>>) -> Option<
    (FlagReturn, Seq<char>),
> {
    match lookup(flags, name) {
        None => None,
        Some(f) => if forall|i: int|
            0 <= i < f.requires@.len() ==> requirement_met(flags, #[trigger] f.requires@[i]@, env) {
            rules_outcome(f.rules@, env)
        } else {
            None
        },
    }
}


/// The required flag `req` is missing, or its rules do not give `true` in
/// the environment `env`.
pub open spec fn requirement_fails(flags: Seq<EvalFlag>, req: Seq<char>, env: Option<Seq<char>>) -> bool {
    match lookup(flags, req) {
        None => true,
        Some(g) => rules_value(g.rules@, env) != Some(FlagReturn::OnOff(true)),
    }
}

/// A flag gets no value, with or without a reason, as soon as any one of
/// the flags it requires (at any position) is missing or is not `true` in
/// the active environment.
pub proof fn law_unmet_requirement_blocks(
    flags: Seq<EvalFlag>,
    name: Seq<char>,
    env: Option<Seq<char>>,
    f: EvalFlag,
    i: int,
)
    requires
        lookup(flags, name) == Some(f),
        0 <= i < f.requires@.len(),
        requirement_fails(flags, f.requires@[i]@, env),
    ensures
        flag_value(flags, name, env) is None,
        flag_outcome(flags, name, env) is None,
{
    assert(!requirement_met(flags, f.requires@[i]@, env));
}

/// When every flag that `f` requires exists and is `true` in the active
/// environment, the flag's value, and the value part of its reasoned
/// outcome, is the value of its own rules in that environment.
pub proof fn law_met_requirements_give_rules(
    flags: Seq<EvalFlag>,
    name: Seq<char>,
    env: Option<Seq<char>>,
    f: EvalFlag,
)
    requires
        lookup(flags, name) == Some(f),
        forall|i: int| 0 <= i < f.requires@.len() ==> !requirement_fails(flags, #[trigger] f.requires@[i]@, env),
    ensures
        flag_value(flags, name, env) == rules_value(f.rules@, env),
        outcome_value(flag_outcome(flags, name, env)) == rules_value(f.rules@, env),
{
    assert forall|i: int| 0 <= i < f.requires@.len() implies requirement_met(flags, #[trigger] f.requires@[i]@, env) by {
        assert(!requirement_fails(flags, f.requires@[i]@, env));
    }
    law_reason_keeps_value(f.rules@, env);
}

/// Evaluating a flag with a reason gives the same value as evaluating it
/// without one, in the same environment, requirements included.
pub proof fn law_flag_reason_keeps_value(flags: Seq<EvalFlag>, name: Seq<char>, env: Option<Seq<char>>)
    ensures
        outcome_value(flag_outcome(flags, name, env)) == flag_value(flags, name, env),
{
    match lookup(flags, name) {
        None => {},
        Some(f) => {
            law_reason_keeps_value(f.rules@, env);
        },
    }
}

/// The spec view of an evaluation result with its reason.
pub open spec fn outcome_view(r: Option<(FlagReturn, &str)>) -> Option<(FlagReturn, Seq<char>)> {
    match r {
        Some(p) => Some((p.0, p.1@)),
        None => None,
    }
}

/// Evaluate rules and return the result along with a reason string
/// (see `rules_outcome`).
pub fn evaluate_rules_with_reason(rules: &Vec<Rule<bool>>, env: Option<&str>) -> (r: Option<
    (FlagReturn, &'static str),
>)
    ensures
        outcome_view(r) == rules_outcome(rules@, opt_str(env)),
    decreases rules,
{
    let ghost ev = opt_str(env);
    let mut i: usize = 0;
    assert(rules@.subrange(0, rules@.len() as int) =~= rules@);
    while i < rules.len()
        invariant
            i <= rules@.len(),
            ev == opt_str(env),
            rules_outcome(rules@, ev) == rules_outcome(rules@.subrange(i as int, rules@.len() as int), ev),
        decreases rules@.len() - i,
    {
        let ghost rest = rules@.subrange(i as int, rules@.len() as int);
        proof {
            assert(rest[0] == rules@[i as int]);
            assert(rest.drop_first() =~= rules@.subrange(i + 1, rules@.len() as int));
        }
        match &rules[i] {
            Rule::BoolExpressionValue(holds, ret) => {
                if *holds {
                    return Some((copy_return(ret), "TARGETING_MATCH"));
                }
            },
            Rule::Value(ret) => {
                return Some((copy_return(ret), "DEFAULT"));
            },
            Rule::EnvRule { env: e, rules: sub } => {
                let active = match env {
                    Some(x) => str_eq(x, e.as_str()),
                    None => false,
                };
                if active {
                    proof {
                        assert(decreases_to!(*rules => rules@));
                        assert(decreases_to!(rules@ => rules@[i as int]));
                        assert(decreases_to!(rules@[i as int] => rules@[i as int]->EnvRule_rules));
                    }
                    let r = evaluate_rules_with_reason(sub, env);
                    if r.is_some() {
                        return r;
                    }
                }
            },
        }
        i = i + 1;
    }
    None
}

/// Evaluate a flag checking its `@requires` dependencies first, with the
/// reason for its value (see `flag_outcome`).
pub fn evaluate_flag_with_reason(flag_name: &str, flags: &Vec<EvalFlag>, env: Option<&str>) -> (r:
    Option<(FlagReturn, &'static str)>)
    ensures
        outcome_view(r) == flag_outcome(flags@, flag_name@, opt_str(env)),
{
    let idx = match find_flag(flags, flag_name) {
        Some(i) => i,
        None => {
            return None;
        },
    };
    let f = &flags[idx];
    let mut j: usize = 0;
    while j < f.requires.len()
        invariant
            j <= f.requires@.len(),
            lookup(flags@, flag_name@) == Some(*f),
            forall|m: int| 0 <= m < j ==> requirement_met(flags@, #[trigger] f.requires@[m]@, opt_str(env)),
        decreases f.requires@.len() - j,
    {
        let req = f.requires[j].as_str();
        match find_flag(flags, req) {
            None => {
                return None;
            },
            Some(ri) => {
                let v = evaluate_rules_with_reason(&flags[ri].rules, env);
                proof {
                    law_reason_keeps_value(flags@[ri as int].rules@, opt_str(env));
                }
                let ok = match v {
                    Some((FlagReturn::OnOff(b), _)) => b,
                    _ => false,
                };
                if !ok {
                    return None;
                }
            },
        }
        j = j + 1;
    }
    evaluate_rules_with_reason(&f.rules, env)
}

// ── Expected values ────────────────────────────────────────────────

/// A boolean result matches the upper-cased expectation `TRUE` or `FALSE`.
pub open spec fn bool_matches(val: bool, upper: Seq<char>) -> bool {
    if upper == "TRUE"@ {
        val
    } else if upper == "FALSE"@ {
        !val
    } else {
        false
    }
}

/// The expectation with one pair of surrounding double quotes removed.
pub open spec fn unquoted(e: Seq<char>) -> Seq<char> {
    if e.len() >= 2 && e[0] == '"' && e.last() == '"' {
        e.subrange(1, e.len() - 1)
    } else {
        e
    }
}

/// Whether a result matches the expected value written in a test: a
/// boolean against `true`/`false` in any case, a JSON value equal, as a
/// parsed value, to the JSON the expectation parses to, an integer against the `i64` it parses
/// to, a string against the expectation without surrounding quotes.
pub open spec fn expected_matches(result: FlagReturn, expected: Seq<char>) -> bool {
    match result {
        FlagReturn::OnOff(v) => bool_matches(v, upper_text(expected)),
        FlagReturn::Json(v) => json_values_equal(v@, expected) == Some(true),
        FlagReturn::Integer(v) => i64_value(expected) == Some(v as int),
        FlagReturn::Str(v) => v@ == unquoted(expected),
    }
}

/// Whether a boolean result matches an expectation, given the expectation
/// upper-cased.
pub fn bool_matches_upper(val: bool, upper: &str) -> (b: bool)
    ensures
        b == bool_matches(val, upper@),
{
    if str_eq(upper, "TRUE") {
        val
    } else if str_eq(upper, "FALSE") {
        !val
    } else {
        false
    }
}

/// What comparing two JSON texts by value gives: both are parsed with
/// `serde_json::from_str::<serde_json::Value>` and the values compared with
/// `==`; `None` when either does not parse.
pub uninterp spec fn json_values_equal(a: Seq<char>, b: Seq<char>) -> Option<bool>;

/// `serde_json::from_str::<serde_json::Value>` on both texts, then `==` on
/// the values (numbers compare by value, so `0.0` equals `-0.0`); `None`
/// when either does not parse. The result is named `json_values_equal`.
#[verifier::external_body]
fn json_equal(a: &str, b: &str) -> (r: Option<bool>)
    ensures
        r == json_values_equal(a@, b@),
{
    match (serde_json::from_str::<serde_json::Value>(a), serde_json::from_str::<serde_json::Value>(b)) {
        (Ok(x), Ok(y)) => Some(x == y),
        _ => None,
    }
}

/// Whether a result matches the expected value written in a test (see
/// `expected_matches`).
pub fn result_matches(result: &FlagReturn, expected: &str) -> (b: bool)
    ensures
        b == expected_matches(*result, expected@),
{
    match result {
        FlagReturn::OnOff(v) => {
            let up = to_upper(expected);
            bool_matches_upper(*v, up.as_str())
        },
        FlagReturn::Json(v) => match json_equal(v.as_str(), expected) {
            Some(eq) => eq,
            None => false,
        },
        FlagReturn::Integer(v) => {
            match parse_i64_of(&chars_of(expected)) {
                Some(n) => n == *v,
                None => false,
            }
        },
        FlagReturn::Str(v) => {
            let e = chars_of(expected);
            let n = e.len();
            let inner = if n >= 2 && e[0] == '"' && e[n - 1] == '"' {
                slice_of(&e, 1, n - 1)
            } else {
                e
            };
            str_eq(v.as_str(), string_of(&inner).as_str())
        },
    }
}

/// The outcome of one test assertion.
#[derive(Debug, Clone, Copy, PartialEq, Eq, Structural)]
pub enum TestOutcome {
    Pass,
    /// A rule applied but its value is not the expected one.
    Fail,
    /// The flag is not defined.
    FlagNotFound,
    /// No rule of the flag applied.
    NoRuleMatched,
}

/// The outcome of asserting that the flag `flag_name` evaluates to `expected`.
pub open spec fn test_outcome(
    flags: Seq<EvalFlag>,
    flag_name: Seq<char>,
    expected: Seq<char>,
    env: Option<Seq<char>>,
) -> TestOutcome {
    if lookup(flags, flag_name) is None {
        TestOutcome::FlagNotFound
    } else {
        match flag_value(flags, flag_name, env) {
            Some(v) => if expected_matches(v, expected) {
                TestOutcome::Pass
            } else {
                TestOutcome::Fail
            },
            None => TestOutcome::NoRuleMatched,
        }
    }
}

/// Runs one test assertion: evaluates the flag and compares its value with
/// the expectation.
pub fn run_test_case(flag_name: &str, expected: &str, flags: &Vec<EvalFlag>, env: Option<&str>) -> (r:
    TestOutcome)
    ensures
        r == test_outcome(flags@, flag_name@, expected@, opt_str(env)),
{
    if find_flag(flags, flag_name).is_none() {
        return TestOutcome::FlagNotFound;
    }
    match evaluate_flag_with_env(flag_name, flags, env) {
        Some(v) => if result_matches(&v, expected) {
            TestOutcome::Pass
        } else {
            TestOutcome::Fail
        },
        None => TestOutcome::NoRuleMatched,
    }
}

} // verus!
