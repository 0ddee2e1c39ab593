use flagfile_cli::test_line::{find_matching_paren, parse_kv_pair, parse_test_line, split_context_params};

fn chars(s: &str) -> Vec<char> {
    s.chars().collect()
}

fn pairs(v: &[(&str, &str)]) -> Vec<(String, String)> {
    v.iter().map(|(a, b)| (a.to_string(), b.to_string())).collect()
}

#[test]
fn parse_line_with_context() {
    let (name, ctx, expected) = parse_test_line("  FF-premium(plan=premium, beta=true) == TRUE ").unwrap();
    assert_eq!(name, "FF-premium");
    assert_eq!(ctx, pairs(&[("plan", "premium"), ("beta", "true")]));
    assert_eq!(expected, "TRUE");
}

#[test]
fn parse_line_without_context() {
    let (name, ctx, expected) = parse_test_line("FF-simple == 42").unwrap();
    assert_eq!(name, "FF-simple");
    assert!(ctx.is_empty());
    assert_eq!(expected, "42");
}

#[test]
fn parse_line_rejects_bad_input() {
    assert!(parse_test_line("   ").is_none());
    assert!(parse_test_line("FF-a(x=1").is_none());
    assert!(parse_test_line("FF-a(x=1) TRUE").is_none());
    assert!(parse_test_line("FF-a TRUE").is_none());
}

#[test]
fn parse_line_keeps_brackets_and_quotes_together() {
    let (name, ctx, expected) =
        parse_test_line("FF-x(tags=[a,b], msg=\"x,(y)\", n=1) == \"ok\"").unwrap();
    assert_eq!(name, "FF-x");
    assert_eq!(ctx, pairs(&[("tags", "[a,b]"), ("msg", "\"x,(y)\""), ("n", "1")]));
    assert_eq!(expected, "\"ok\"");
}

#[test]
fn matching_paren_skips_nested_and_quoted() {
    let s = chars("f(a(b), \")\", [)]) == 1");
    assert_eq!(find_matching_paren(&s, 1), Some(16));
    assert_eq!(find_matching_paren(&chars("f(a"), 1), None);
}

#[test]
fn context_params_drop_pairs_without_equals() {
    assert_eq!(split_context_params(&chars("a=1,junk, b = 2 ")), pairs(&[("a", "1"), ("b ", " 2")]));
    assert_eq!(parse_kv_pair(&chars("  k=v=w ")), Some(("k".to_string(), "v=w".to_string())));
    assert_eq!(parse_kv_pair(&chars("novalue")), None);
}

#[test]
fn assertion_lines_skip_blanks_and_comments() {
    let content = "// header\n\n  FF-a == true  \r\n   // note\nFF-b(x=1) == 2\n\t\n";
    assert_eq!(
        flagfile_cli::test_line::assertion_lines(content),
        vec!["FF-a == true".to_string(), "FF-b(x=1) == 2".to_string()]
    );
    assert!(flagfile_cli::test_line::assertion_lines("").is_empty());
}

#[test]
fn tally_counts_passes_and_failures() {
    let mut t = flagfile_cli::test_line::TestTally::new();
    assert!(t.succeeded());
    t.record(flagfile_cli::evaluate::TestOutcome::Pass);
    t.record(flagfile_cli::evaluate::TestOutcome::NoRuleMatched);
    t.record(flagfile_cli::evaluate::TestOutcome::FlagNotFound);
    t.record(flagfile_cli::evaluate::TestOutcome::Pass);
    assert_eq!((t.passed, t.failed, t.total), (2, 2, 4));
    assert!(!t.succeeded());
}
