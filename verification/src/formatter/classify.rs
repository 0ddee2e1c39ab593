//! Line classification for the formatter.
//!
//! Each source line is assigned a `LineType` that determines its indentation
//! level and whether its content is normalized.
use vstd::prelude::*;
use crate::text::{
    chars_of, contains, contains_of, starts_with, starts_with_of,
    trim_end, trim_end_of,
};

verus! {

/// The kind of a formatter source line.
#[derive(Debug, Clone, Copy, PartialEq, Eq, Structural)]
pub enum LineType {
    Blank,
    LineComment,
    BlockCommentStart,
    BlockCommentMiddle,
    BlockCommentEnd,
    BlockCommentFull,
    Annotation,
    FlagHeaderBlock,
    FlagHeaderShort,
    SegmentHeader,
    EnvHeaderBlock,
    EnvHeaderShort,
    ClosingBrace,
    RuleExpr,
    StaticValue,
    Continuation,
}

/// The first index at or after `i` where character `a` followed by `b`
/// stands outside single- and double-quoted strings, given whether `i`
/// lies inside a single (`sq`) or double (`dq`) quoted string.
pub open spec fn unquoted_pair_from(
    s: Seq<char>,
    i: int,
    sq: bool,
    dq: bool,
    a: char,
    b: char,
) -> Option<int>
    decreases s.len() - i,
{
    if i < 0 || i >= s.len() {
        None
    } else {
        let ch = s[i];
        if ch == '\'' && !dq {
            unquoted_pair_from(s, i + 1, !sq, dq, a, b)
        } else if ch == '"' && !sq {
            unquoted_pair_from(s, i + 1, sq, !dq, a, b)
        } else if ch == a && !sq && !dq && i + 1 < s.len() && s[i + 1] == b {
            Some(i)
        } else {
            unquoted_pair_from(s, i + 1, sq, dq, a, b)
        }
    }
}

/// The first position of `a` followed by `b` outside quoted strings.
pub open spec fn unquoted_pair(s: Seq<char>, a: char, b: char) -> Option<int> {
    unquoted_pair_from(s, 0, false, false, a, b)
}

/// The first `->` outside quoted strings.
pub open spec fn arrow_pos(s: Seq<char>) -> Option<int> {
    unquoted_pair(s, '-', '>')
}

/// Whether `s` holds `->` outside quoted strings.
pub open spec fn has_arrow(s: Seq<char>) -> bool {
    arrow_pos(s) is Some
}

/// The line ends with `{` opening a block (and is not a `json(` value).
pub open spec fn ends_with_block_brace(t: Seq<char>) -> bool {
    let e = trim_end(t);
    e.len() > 0 && e.last() == '{' && !contains(t, "json("@)
}

/// The text after `@` names a metadata annotation.
pub open spec fn is_annotation_word(a: Seq<char>) -> bool {
    ||| starts_with(a, "owner"@)
    ||| starts_with(a, "expires"@)
    ||| starts_with(a, "ticket"@)
    ||| starts_with(a, "description"@)
    ||| starts_with(a, "type"@)
    ||| starts_with(a, "deprecated"@)
    ||| starts_with(a, "requires"@)
    ||| starts_with(a, "test"@)
}

/// The classification of a trimmed line, given whether it lies inside a
/// block comment and whether the previous line left a rule expression open.
pub open spec fn line_type_of(t: Seq<char>, in_block_comment: bool, prev_cont: bool) -> LineType {
    if in_block_comment {
        if contains(t, "*/"@) {
            LineType::BlockCommentEnd
        } else {
            LineType::BlockCommentMiddle
        }
    } else if t.len() == 0 {
        LineType::Blank
    } else if starts_with(t, "/*"@) {
        if contains(t, "*/"@) {
            LineType::BlockCommentFull
        } else {
            LineType::BlockCommentStart
        }
    } else if starts_with(t, "//"@) {
        LineType::LineComment
    } else if t == "}"@ {
        LineType::ClosingBrace
    } else if starts_with(t, "@segment"@) {
        LineType::SegmentHeader
    } else if starts_with(t, "@env "@) && ends_with_block_brace(t) {
        LineType::EnvHeaderBlock
    } else if starts_with(t, "@env "@) && has_arrow(t) {
        LineType::EnvHeaderShort
    } else if t[0] == '@' && is_annotation_word(t.drop_first()) {
        LineType::Annotation
    } else if starts_with(t, "FF-"@) || starts_with(t, "FF_"@) {
        if ends_with_block_brace(t) {
            LineType::FlagHeaderBlock
        } else if has_arrow(t) {
            LineType::FlagHeaderShort
        } else {
            LineType::StaticValue
        }
    } else if prev_cont {
        LineType::Continuation
    } else if has_arrow(t) {
        LineType::RuleExpr
    } else {
        LineType::StaticValue
    }
}

/// The first position of `a` followed by `b` outside quoted strings.
pub fn find_unquoted_pair(s: &[char], a: char, b: char) -> (r: Option<usize>)
    requires
        a != '\'' && a != '"',
    ensures
        r matches Some(i) ==> unquoted_pair(s@, a, b) == Some(i as int),
        r is None ==> unquoted_pair(s@, a, b) is None,
        r matches Some(i) ==> i + 1 < s.len() && s@[i as int] == a && s@[i + 1] == b,
{
    let mut sq = false;
    let mut dq = false;
    let mut i: usize = 0;
    while i < s.len()
        invariant
            i <= s.len(),
            unquoted_pair(s@, a, b) == unquoted_pair_from(s@, i as int, sq, dq, a, b),
        decreases s.len() - i,
    {
        let ch = s[i];
        if ch == '\'' && !dq {
            sq = !sq;
        } else if ch == '"' && !sq {
            dq = !dq;
        } else if ch == a && !sq && !dq && i + 1 < s.len() && s[i + 1] == b {
            return Some(i);
        }
        i = i + 1;
    }
    None
}

/// Whether the line holds `->` outside quoted strings.
pub fn contains_arrow_outside_quotes(line: &[char]) -> (b: bool)
    ensures
        b == has_arrow(line@),
{
    find_unquoted_pair(line, '-', '>').is_some()
}

/// Whether the line ends with `{` as a block opener (not a `json(` value).
pub fn ends_with_block_brace_of(t: &[char]) -> (b: bool)
    ensures
        b == ends_with_block_brace(t@),
{
    let e = trim_end_of(t);
    if e.len() == 0 || e[e.len() - 1] != '{' {
        return false;
    }
    !contains_of(t, &chars_of("json("))
}

fn is_annotation_word_of(a: &[char]) -> (b: bool)
    ensures
        b == is_annotation_word(a@),
{
    starts_with_of(a, &chars_of("owner")) || starts_with_of(a, &chars_of("expires"))
        || starts_with_of(a, &chars_of("ticket")) || starts_with_of(a, &chars_of("description"))
        || starts_with_of(a, &chars_of("type")) || starts_with_of(a, &chars_of("deprecated"))
        || starts_with_of(a, &chars_of("requires")) || starts_with_of(a, &chars_of("test"))
}

/// Classify a trimmed line given as characters.
pub fn classify_chars(t: &[char], in_block_comment: bool, prev_cont: bool) -> (r: LineType)
    ensures
        r == line_type_of(t@, in_block_comment, prev_cont),
{
    if in_block_comment {
        if contains_of(t, &chars_of("*/")) {
            return LineType::BlockCommentEnd;
        }
        return LineType::BlockCommentMiddle;
    }
    if t.len() == 0 {
        return LineType::Blank;
    }
    if starts_with_of(t, &chars_of("/*")) {
        if contains_of(t, &chars_of("*/")) {
            return LineType::BlockCommentFull;
        }
        return LineType::BlockCommentStart;
    }
    if starts_with_of(t, &chars_of("//")) {
        return LineType::LineComment;
    }
    if t.len() == 1 && t[0] == '}' {
        proof {
            reveal_strlit("}");
            assert(t@ =~= "}"@);
        }
        return LineType::ClosingBrace;
    }
    proof {
        reveal_strlit("}");
        assert(t@ != "}"@ ==> !(t@.len() == 1 && t@[0] == '}'));
        if t@ == "}"@ {
            assert(t@.len() == 1 && t@[0] == '}');
        }
    }
    if starts_with_of(t, &chars_of("@segment")) {
        return LineType::SegmentHeader;
    }
    let is_env = starts_with_of(t, &chars_of("@env "));
    if is_env && ends_with_block_brace_of(t) {
        return LineType::EnvHeaderBlock;
    }
    if is_env && contains_arrow_outside_quotes(t) {
        return LineType::EnvHeaderShort;
    }
    if t[0] == '@' {
        let rest = crate::text::slice_of(t, 1, t.len());
        assert(rest@ =~= t@.drop_first());
        if is_annotation_word_of(&rest) {
            return LineType::Annotation;
        }
    }
    if starts_with_of(t, &chars_of("FF-")) || starts_with_of(t, &chars_of("FF_")) {
        if ends_with_block_brace_of(t) {
            return LineType::FlagHeaderBlock;
        }
        if contains_arrow_outside_quotes(t) {
            return LineType::FlagHeaderShort;
        }
        return LineType::StaticValue;
    }
    if prev_cont {
        return LineType::Continuation;
    }
    if contains_arrow_outside_quotes(t) {
        return LineType::RuleExpr;
    }
    LineType::StaticValue
}

/// Classify a single trimmed source line.
///
/// `in_block_comment`: whether the line lies inside a `/* ... */` block.
/// `prev_expects_continuation`: whether the previous meaningful line started
/// a rule expression that has not yet reached its `->` arrow.
pub fn classify_line(trimmed: &str, in_block_comment: bool, prev_expects_continuation: bool) -> (r:
    LineType)
    ensures
        r == line_type_of(trimmed@, in_block_comment, prev_expects_continuation),
{
    let t = chars_of(trimmed);
    classify_chars(&t, in_block_comment, prev_expects_continuation)
}

} // verus!
