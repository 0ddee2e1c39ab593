use flagfile_cli::formatter::classify::{classify_line, LineType};

#[test]
fn test_classify_blank() {
    assert_eq!(classify_line("", false, false), LineType::Blank);
}

#[test]
fn test_classify_line_comment() {
    assert_eq!(
        classify_line("// hello", false, false),
        LineType::LineComment
    );
}

#[test]
fn test_classify_block_comment_full() {
    assert_eq!(
        classify_line("/* comment */", false, false),
        LineType::BlockCommentFull
    );
}

#[test]
fn test_classify_block_comment_start() {
    assert_eq!(
        classify_line("/* comment", false, false),
        LineType::BlockCommentStart
    );
}

#[test]
fn test_classify_block_comment_middle() {
    assert_eq!(
        classify_line("some text", true, false),
        LineType::BlockCommentMiddle
    );
}

#[test]
fn test_classify_block_comment_end() {
    assert_eq!(
        classify_line("end */", true, false),
        LineType::BlockCommentEnd
    );
}

#[test]
fn test_classify_annotation() {
    assert_eq!(
        classify_line("@owner \"team\"", false, false),
        LineType::Annotation
    );
    assert_eq!(
        classify_line("@expires 2027-01-01", false, false),
        LineType::Annotation
    );
    assert_eq!(
        classify_line("@test FF-foo == true", false, false),
        LineType::Annotation
    );
    assert_eq!(
        classify_line("@requires FF-bar", false, false),
        LineType::Annotation
    );
}

#[test]
fn test_classify_flag_header_block() {
    assert_eq!(
        classify_line("FF-my-flag {", false, false),
        LineType::FlagHeaderBlock
    );
}

#[test]
fn test_classify_flag_header_short() {
    assert_eq!(
        classify_line("FF-my-flag -> true", false, false),
        LineType::FlagHeaderShort
    );
}

#[test]
fn test_classify_segment_header() {
    assert_eq!(
        classify_line("@segment my_seg {", false, false),
        LineType::SegmentHeader
    );
}

#[test]
fn test_classify_env_header_block() {
    assert_eq!(
        classify_line("@env stage {", false, false),
        LineType::EnvHeaderBlock
    );
}

#[test]
fn test_classify_env_header_short() {
    assert_eq!(
        classify_line("@env dev -> true", false, false),
        LineType::EnvHeaderShort
    );
}

#[test]
fn test_classify_closing_brace() {
    assert_eq!(classify_line("}", false, false), LineType::ClosingBrace);
}

#[test]
fn test_classify_rule_expr() {
    assert_eq!(
        classify_line("a == b -> true", false, false),
        LineType::RuleExpr
    );
}

#[test]
fn test_classify_static_value() {
    assert_eq!(classify_line("false", false, false), LineType::StaticValue);
    assert_eq!(
        classify_line("json({})", false, false),
        LineType::StaticValue
    );
}

#[test]
fn test_classify_continuation() {
    assert_eq!(
        classify_line("and demo == false -> TRUE", false, true),
        LineType::Continuation
    );
}

#[test]
fn test_arrow_inside_quotes_not_detected() {
    // Arrow inside a string should not count
    assert_eq!(
        classify_line("name == \"a -> b\"", false, false),
        LineType::StaticValue
    );
}

#[test]
fn test_classify_docblock_start() {
    assert_eq!(
        classify_line("/**", false, false),
        LineType::BlockCommentStart
    );
}
