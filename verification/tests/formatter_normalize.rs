use flagfile_cli::formatter::classify::LineType;
use flagfile_cli::formatter::normalize::{
    collapse_spaces, normalize_commas, normalize_expression, normalize_line, normalize_operators,
    normalize_return_value, normalize_rule_line, normalize_short_form, normalize_static_value,
    normalize_test_annotation, split_trailing_comment,
};

// ── Arrow normalization ──────────────────────────────────────

#[test]
fn test_normalize_short_form_arrow() {
    assert_eq!(normalize_short_form("FF-flag->true"), "FF-flag -> TRUE");
    assert_eq!(
        normalize_short_form("FF-flag  ->  false"),
        "FF-flag -> FALSE"
    );
}

// ── Operator spacing ────────────────────────────────────────

#[test]
fn test_normalize_operators_eq() {
    assert_eq!(normalize_operators("a==b"), "a == b");
    // When source has existing spaces, operators may produce double spaces;
    // these are collapsed by normalize_expression / collapse_spaces later.
    assert_eq!(normalize_operators("a =b"), "a == b");
    assert_eq!(normalize_expression("a = b"), "a == b");
}

#[test]
fn test_normalize_operators_neq() {
    assert_eq!(normalize_operators("a!=b"), "a != b");
}

#[test]
fn test_normalize_operators_gte_lte() {
    assert_eq!(normalize_operators("a>=b"), "a >= b");
    assert_eq!(normalize_operators("a<=b"), "a <= b");
}

#[test]
fn test_normalize_operators_gt_lt() {
    assert_eq!(normalize_operators("a>b"), "a > b");
    assert_eq!(normalize_operators("a<b"), "a < b");
}

#[test]
fn test_normalize_operators_match() {
    assert_eq!(normalize_operators("a~b"), "a ~ b");
    assert_eq!(normalize_operators("a!~b"), "a !~ b");
    assert_eq!(normalize_operators("a^~b"), "a ^~ b");
    assert_eq!(normalize_operators("a~$b"), "a ~$ b");
    assert_eq!(normalize_operators("a!^~b"), "a !^~ b");
    assert_eq!(normalize_operators("a!~$b"), "a !~$ b");
}

// ── Comma spacing ───────────────────────────────────────────

#[test]
fn test_normalize_commas() {
    assert_eq!(normalize_commas("(a,b,c)"), "(a, b, c)");
    assert_eq!(normalize_commas("(a , b , c)"), "(a, b, c)");
    assert_eq!(normalize_commas("( a,b )"), "( a, b )");
}

// ── Boolean normalization ───────────────────────────────────

#[test]
fn test_normalize_return_value_bool() {
    assert_eq!(normalize_return_value("true"), "TRUE");
    assert_eq!(normalize_return_value("false"), "FALSE");
    assert_eq!(normalize_return_value("True"), "TRUE");
    assert_eq!(normalize_return_value("FALSE"), "FALSE");
}

#[test]
fn test_normalize_return_value_non_bool() {
    assert_eq!(normalize_return_value("5000"), "5000");
    assert_eq!(normalize_return_value("\"debug\""), "\"debug\"");
}

// ── Static value normalization ──────────────────────────────

#[test]
fn test_normalize_static_value() {
    assert_eq!(normalize_static_value("true"), "TRUE");
    assert_eq!(
        normalize_static_value("false // comment"),
        "FALSE // comment"
    );
}

// ── Rule line normalization ─────────────────────────────────

#[test]
fn test_normalize_rule_line_basic() {
    assert_eq!(normalize_rule_line("a==b -> true"), "a == b -> TRUE");
}

#[test]
fn test_normalize_rule_with_trailing_comment() {
    assert_eq!(
        normalize_rule_line("lower(name) ~ nik -> true // contains"),
        "lower(name) ~ nik -> TRUE // contains"
    );
    // Compact form gets spaced out
    assert_eq!(
        normalize_rule_line("lower(name)~nik -> true // contains"),
        "lower(name) ~ nik -> TRUE // contains"
    );
}

// ── json protection ─────────────────────────────────────────

#[test]
fn test_normalize_operators_skips_quotes() {
    assert_eq!(normalize_expression("a == \"x>=y\""), "a == \"x>=y\"");
    assert_eq!(normalize_expression("a == 'x!=y'"), "a == 'x!=y'");
}

#[test]
fn test_normalize_operators_skips_regex() {
    assert_eq!(normalize_expression("name ~ /.*ola.*/"), "name ~ /.*ola.*/");
}

// ── Full line normalization ─────────────────────────────────

#[test]
fn test_normalize_line_flag_header_block() {
    assert_eq!(
        normalize_line("FF-my-flag  {", &LineType::FlagHeaderBlock),
        "FF-my-flag {"
    );
}

#[test]
fn normalize_test_json_simple_compacted() {
    // Simple JSON is compacted to single line via serde_json
    assert_eq!(
        normalize_static_value("json({\"key\":  \"val\"})"),
        "json({\"key\":\"val\"})"
    );
}

#[test]
fn test_json_nested_braces() {
    // Nested JSON is compacted via serde_json
    assert_eq!(
        normalize_static_value("json({\"a\": {\"b\": 1}})"),
        "json({\"a\":{\"b\":1}})"
    );
}

#[test]
fn test_json_empty_object() {
    assert_eq!(normalize_static_value("json({})"), "json({})");
}

// ── split_trailing_comment ──────────────────────────────────

#[test]
fn test_split_trailing_comment() {
    let (code, comment) = split_trailing_comment("expr -> true // reason");
    assert_eq!(code, "expr -> true ");
    assert_eq!(comment.as_deref(), Some("// reason"));
}

#[test]
fn test_split_trailing_comment_in_string() {
    let (code, comment) = split_trailing_comment("a == \"hello // world\"");
    assert_eq!(code, "a == \"hello // world\"");
    assert_eq!(comment.as_deref(), None);
}

// ── collapse_spaces ─────────────────────────────────────────

#[test]
fn test_collapse_spaces() {
    assert_eq!(collapse_spaces("a  ==  b"), "a == b");
    assert_eq!(collapse_spaces("a  ==  \"x  y\""), "a == \"x  y\"");
}

// ── @test annotation normalization ─────────────────────────

#[test]
fn test_normalize_test_annotation_spaces_around_eq() {
    assert_eq!(
        normalize_test_annotation("@test FF-flag==true"),
        "@test FF-flag == true"
    );
    assert_eq!(
        normalize_test_annotation("@test FF-flag  ==  true"),
        "@test FF-flag == true"
    );
    assert_eq!(
        normalize_test_annotation("@test FF-flag == true"),
        "@test FF-flag == true"
    );
}

#[test]
fn test_normalize_test_annotation_single_eq() {
    // Single = is normalized to ==
    assert_eq!(
        normalize_test_annotation("@test FF-flag=true"),
        "@test FF-flag == true"
    );
}

#[test]
fn test_normalize_test_annotation_neq() {
    assert_eq!(
        normalize_test_annotation("@test FF-flag!=false"),
        "@test FF-flag != false"
    );
}

#[test]
fn test_normalize_test_annotation_params_commas() {
    assert_eq!(
        normalize_test_annotation("@test FF-feature(a=b,c=d,dd=4,z=\"demo car\")==true"),
        "@test FF-feature(a=b, c=d, dd=4, z=\"demo car\") == true"
    );
}

#[test]
fn test_normalize_test_annotation_params_already_spaced() {
    assert_eq!(
        normalize_test_annotation("@test FF-feature(a=b, c=d) == true"),
        "@test FF-feature(a=b, c=d) == true"
    );
}

#[test]
fn test_normalize_test_annotation_empty_params() {
    assert_eq!(
        normalize_test_annotation("@test FF-timer-feature() == true"),
        "@test FF-timer-feature() == true"
    );
}

#[test]
fn test_normalize_test_annotation_no_params() {
    assert_eq!(
        normalize_test_annotation("@test FF-launch-event == true"),
        "@test FF-launch-event == true"
    );
}

#[test]
fn test_normalize_test_annotation_array_param() {
    // Commas inside brackets should not be split
    assert_eq!(
        normalize_test_annotation(
            "@test FF-admin-panel(roles=[\"viewer\", \"editor\", \"admin\"]) == true"
        ),
        "@test FF-admin-panel(roles=[\"viewer\", \"editor\", \"admin\"]) == true"
    );
}

#[test]
fn test_normalize_test_via_normalize_line() {
    assert_eq!(
        normalize_line("@test FF-flag==true", &LineType::Annotation),
        "@test FF-flag == true"
    );
    // Non-test annotations are preserved verbatim
    assert_eq!(
        normalize_line("@owner \"team\"", &LineType::Annotation),
        "@owner \"team\""
    );
}

#[test]
fn collapse_spaces_removes_only_spaces() {
    for s in ["a  ==   b", "x \"a   b\"  y", "json(  {\"k\":  1})", "  lead  and  trail  ", "plain text"] {
        let r = collapse_spaces(s);
        assert_eq!(r.replace(' ', ""), s.replace(' ', ""));
        assert!(r.len() <= s.len());
        if !s.contains("  ") {
            assert_eq!(r, s);
        }
    }
    assert_eq!(collapse_spaces("a  b"), "a b");
}

#[test]
fn collapse_spaces_twice_changes_nothing() {
    for s in [
        "a  ==   b",
        "x \"a   b\"  y  'c  d'",
        "json(  {\"k\":  1})  and   z",
        "name ~  /a  b/   or  x",
        "j  son(  x",
        "  lead  and  trail  ",
    ] {
        let once = collapse_spaces(s);
        assert_eq!(collapse_spaces(&once), once);
    }
}
