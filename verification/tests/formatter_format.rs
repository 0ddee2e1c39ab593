use flagfile_cli::formatter::format::format_flagfile;

// ── Basic indentation ──────────────────────────────────────

#[test]
fn test_simple_short_flag() {
    let input = "FF-flag -> true\n";
    let expected = "FF-flag -> TRUE\n";
    assert_eq!(format_flagfile(input), expected);
}

#[test]
fn test_block_flag_indentation() {
    let input = "\
FF-my-flag {
a == b -> true
false
}
";
    let expected = "\
FF-my-flag {
    a == b -> TRUE
    FALSE
}
";
    assert_eq!(format_flagfile(input), expected);
}

#[test]
fn test_nested_env_indentation() {
    let input = "\
FF-flag {
@env stage {
appVersion >= 5.3 -> false
false
}
@env dev -> true
false
}
";
    let expected = "\
FF-flag {
    @env stage {
        appVersion >= 5.3 -> FALSE
        FALSE
    }
    @env dev -> TRUE
    FALSE
}
";
    assert_eq!(format_flagfile(input), expected);
}

// ── Blank line handling ────────────────────────────────────

#[test]
fn test_collapse_multiple_blanks() {
    let input = "\
FF-a -> true



FF-b -> false
";
    let expected = "\
FF-a -> TRUE

FF-b -> FALSE
";
    assert_eq!(format_flagfile(input), expected);
}

#[test]
fn test_no_blank_after_open_brace() {
    let input = "\
FF-flag {

    a == b -> true
    false
}
";
    let expected = "\
FF-flag {
    a == b -> TRUE
    FALSE
}
";
    assert_eq!(format_flagfile(input), expected);
}

#[test]
fn test_no_blank_before_close_brace() {
    let input = "\
FF-flag {
    a == b -> true
    false

}
";
    let expected = "\
FF-flag {
    a == b -> TRUE
    FALSE
}
";
    assert_eq!(format_flagfile(input), expected);
}

// ── Comment preservation ───────────────────────────────────

#[test]
fn test_comment_preserved() {
    let input = "\
// This is a comment
FF-flag -> true
";
    let expected = "\
// This is a comment
FF-flag -> TRUE
";
    assert_eq!(format_flagfile(input), expected);
}

#[test]
fn test_comment_inside_block_indented() {
    let input = "\
FF-flag {
// inner comment
a == b -> true
false
}
";
    let expected = "\
FF-flag {
    // inner comment
    a == b -> TRUE
    FALSE
}
";
    assert_eq!(format_flagfile(input), expected);
}

#[test]
fn test_block_comment_preserved() {
    let input = "\
/**
 * This is a docblock
 * @test FF-flag == true
 */
FF-flag -> true
";
    let expected = "\
/**
 * This is a docblock
 * @test FF-flag == true
 */
FF-flag -> TRUE
";
    assert_eq!(format_flagfile(input), expected);
}

#[test]
fn test_block_comment_inside_flag_indented() {
    let input = "\
FF-flag {
/* comment like this */
true
}
";
    let expected = "\
FF-flag {
    /* comment like this */
    TRUE
}
";
    assert_eq!(format_flagfile(input), expected);
}

// ── Operator normalization ─────────────────────────────────

#[test]
fn test_operator_spacing_in_rule() {
    let input = "\
FF-flag {
    a==b -> true
    false
}
";
    let expected = "\
FF-flag {
    a == b -> TRUE
    FALSE
}
";
    assert_eq!(format_flagfile(input), expected);
}

// ── Boolean normalization ──────────────────────────────────

#[test]
fn test_boolean_uppercased_in_return() {
    let input = "FF-flag -> false\n";
    assert_eq!(format_flagfile(input), "FF-flag -> FALSE\n");
}

#[test]
fn test_boolean_uppercased_static() {
    let input = "\
FF-flag {
    true
}
";
    let expected = "\
FF-flag {
    TRUE
}
";
    assert_eq!(format_flagfile(input), expected);
}

// ── Comma normalization ────────────────────────────────────

#[test]
fn test_comma_spacing_in_list() {
    let input = "\
FF-flag {
    a in (1,2,3) -> true
    false
}
";
    let expected = "\
FF-flag {
    a in (1, 2, 3) -> TRUE
    FALSE
}
";
    assert_eq!(format_flagfile(input), expected);
}

// ── Annotation handling ────────────────────────────────────

#[test]
fn test_annotations_at_flag_level() {
    let input = "\
@owner \"team\"
@expires 2027-01-01
FF-flag -> true
";
    let expected = "\
@owner \"team\"
@expires 2027-01-01
FF-flag -> TRUE
";
    assert_eq!(format_flagfile(input), expected);
}

// ── Segment formatting ─────────────────────────────────────

#[test]
fn test_segment_formatting() {
    let input = "\
@segment my_seg{
a == b and c == d
}
";
    let expected = "\
@segment my_seg {
    a == b and c == d
}
";
    assert_eq!(format_flagfile(input), expected);
}

// ── Multi-line expression continuation ─────────────────────

#[test]
fn test_continuation_line_indentation() {
    let input = "\
FF-flag {
model in (ms,mx,m3,my) and created >= 2024-01-01
and demo == false -> TRUE
false
}
";
    let expected = "\
FF-flag {
    model in (ms,mx,m3,my) and created >= 2024-01-01
        and demo == false -> TRUE
    FALSE
}
";
    assert_eq!(format_flagfile(input), expected);
}

// ── JSON content preserved ─────────────────────────────────

#[test]
fn format_test_json_simple_compacted() {
    let input = "\
FF-theme -> json({\"a\":  1, \"b\":  2})
";
    let expected = "\
FF-theme -> json({\"a\":1,\"b\":2})
";
    assert_eq!(format_flagfile(input), expected);
}

#[test]
fn test_json_empty() {
    let input = "FF-flag -> json({})\n";
    assert_eq!(format_flagfile(input), "FF-flag -> json({})\n");
}

// ── Trailing inline comment ────────────────────────────────

#[test]
fn test_trailing_comment_preserved() {
    let input = "\
FF-flag {
    lower(name) ~ nik -> true // contains
    false
}
";
    let expected = "\
FF-flag {
    lower(name) ~ nik -> TRUE // contains
    FALSE
}
";
    assert_eq!(format_flagfile(input), expected);
}

// ── Idempotency ────────────────────────────────────────────

#[test]
fn test_idempotent() {
    let input = "\
// Basic on/off switches
FF-new-ui -> TRUE
FF-beta-features -> FALSE

// Feature with rules
@owner \"team\"
FF-feature-y {
    lower(countryCode) == nl -> TRUE
    FALSE
}

@segment complex_segment_test {
    a == b and c == d and (dd not in (1, 2, 3) or z == \"demo car\")
}
";
    let formatted = format_flagfile(input);
    let formatted_again = format_flagfile(&formatted);
    assert_eq!(formatted, formatted_again, "Formatter is not idempotent");
}

// ── Trailing whitespace removed ────────────────────────────

#[test]
fn test_trailing_whitespace_removed() {
    let input = "FF-flag -> true   \n";
    let result = format_flagfile(input);
    assert!(!result.contains("   \n"), "Trailing whitespace not removed");
    assert_eq!(result, "FF-flag -> TRUE\n");
}

// ── Final newline ensured ──────────────────────────────────

#[test]
fn test_final_newline() {
    let input = "FF-flag -> true";
    let result = format_flagfile(input);
    assert!(result.ends_with('\n'));
}

// ── Leading blank lines removed ────────────────────────────

#[test]
fn test_leading_blanks_removed() {
    let input = "\n\n\nFF-flag -> true\n";
    assert_eq!(format_flagfile(input), "FF-flag -> TRUE\n");
}

// ── Env short form ─────────────────────────────────────────

#[test]
fn test_env_short_form() {
    let input = "\
FF-flag {
    @env dev->true
    false
}
";
    let expected = "\
FF-flag {
    @env dev -> TRUE
    FALSE
}
";
    assert_eq!(format_flagfile(input), expected);
}

// ── Arrow spacing ──────────────────────────────────────────

#[test]
fn test_arrow_spacing_normalized() {
    let input = "FF-flag->true\n";
    assert_eq!(format_flagfile(input), "FF-flag -> TRUE\n");

    let input2 = "FF-flag  ->  true\n";
    assert_eq!(format_flagfile(input2), "FF-flag -> TRUE\n");
}

// ── Blank line between top-level entries ───────────────────

#[test]
fn test_blank_line_between_entries_preserved() {
    let input = "\
FF-a -> TRUE

FF-b -> FALSE
";
    // The blank line between the two flags should be preserved
    assert_eq!(format_flagfile(input), input);
}

// ── Complex real-world scenario ────────────────────────────

#[test]
fn test_complex_scenario() {
    let input = "\
// comment
@expires 2027-01-01
@owner \"Nikolajus\"
FF-sdk-upgrade {
@env stage {
appVersion>=5.3.42 -> false
appVersion<4.32.0 -> false
false
}
@env dev -> true
appVersion >= 5.3.42 -> true
false
}
";
    let expected = "\
// comment
@expires 2027-01-01
@owner \"Nikolajus\"
FF-sdk-upgrade {
    @env stage {
        appVersion >= 5.3.42 -> FALSE
        appVersion < 4.32.0 -> FALSE
        FALSE
    }
    @env dev -> TRUE
    appVersion >= 5.3.42 -> TRUE
    FALSE
}
";
    assert_eq!(format_flagfile(input), expected);
}

#[test]
fn every_comment_line_survives_formatting() {
    let input = "\
// top
FF-flag {
      // inside
/* block
   //  still in block
*/
a==b->true
    /* one line */
false
}
";
    let out = format_flagfile(input);
    let trimmed: Vec<&str> = out.lines().map(|l| l.trim()).collect();
    for line in input.lines() {
        let t = line.trim();
        if t.starts_with("//") || t.starts_with("/*") {
            assert!(trimmed.contains(&t), "lost comment {:?} in {:?}", t, out);
        }
    }
}
