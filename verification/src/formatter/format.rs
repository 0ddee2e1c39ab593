//! The formatting pass: lines are classified, indented by brace depth,
//! normalized, and blank lines are tidied.
use vstd::prelude::*;
use crate::formatter::classify::{classify_chars, line_type_of, LineType};
use crate::formatter::normalize::{collapse_chars, line_chars, line_text, spaces_collapsed};
use crate::num::{parses_i64, parses_i64_of};
use crate::text::{
    chars_of, contains, contains_of, eq_ignore_ascii_case, eq_ignore_ascii_case_of, join_chars,
    join_with, lines,
    lines_of, occurs_at, has_at, push_all, slice_of, starts_with, starts_with_of, string_of, trim,
    trim_of, views,
};

verus! {

/// Indentation width of one nesting level.
pub const INDENT: usize = 4;

// ── Expression heuristics ──────────────────────────────────────────

/// ASCII letter or digit.
pub open spec fn is_alnum(c: char) -> bool {
    ('a' <= c && c <= 'z') || ('A' <= c && c <= 'Z') || ('0' <= c && c <= '9')
}

/// The occurrence of `w` at `i` stands as a whole word.
pub open spec fn word_bounded(t: Seq<char>, w: Seq<char>, i: int) -> bool {
    (i == 0 || !is_alnum(t[i - 1])) && (i + w.len() >= t.len() || !is_alnum(t[i + w.len()]))
}

/// Scanning the non-overlapping occurrences of `w` from index `i` on (as
/// `str::match_indices` does), one of them stands as a whole word.
pub open spec fn word_from(t: Seq<char>, w: Seq<char>, i: int) -> bool
    decreases t.len() - i,
{
    if w.len() == 0 || i < 0 || i + w.len() > t.len() {
        false
    } else if occurs_at(t, w, i) {
        word_bounded(t, w, i) || word_from(t, w, i + w.len())
    } else {
        word_from(t, w, i + 1)
    }
}

/// `w` occurs in `t` as a whole word.
pub open spec fn contains_word(t: Seq<char>, w: Seq<char>) -> bool {
    word_from(t, w, 0)
}

/// The line looks like part of a boolean expression rather than a static
/// return value (`true`, `false`, a quoted string, `json(...)`, an integer).
pub open spec fn looks_like_expression(t: Seq<char>) -> bool {
    if eq_ignore_ascii_case(t, "true"@) || eq_ignore_ascii_case(t, "false"@) {
        false
    } else if starts_with(t, "\""@) || starts_with(t, "'"@) || starts_with(t, "json("@) {
        false
    } else if parses_i64(t) {
        false
    } else {
        let has_operator = contains(t, "=="@) || contains(t, "!="@) || contains(t, ">="@)
            || contains(t, "<="@) || contains(t, " > "@) || contains(t, " < "@) || contains(
            t,
            " ~ "@,
        ) || contains(t, "!~"@) || contains(t, "^~"@) || contains(t, "~$"@);
        let has_keyword = contains_word(t, "and"@) || contains_word(t, "or"@) || contains_word(
            t,
            "in"@,
        ) || contains_word(t, "not"@);
        let has_function = contains(t, "segment("@) || contains(t, "percentage("@) || contains(
            t,
            "coalesce("@,
        ) || contains(t, "lower("@) || contains(t, "upper("@) || contains(t, "LOWER("@)
            || contains(t, "UPPER("@) || contains(t, "now("@) || contains(t, "NOW("@);
        has_operator || has_keyword || has_function
    }
}

pub fn is_alnum_of(c: char) -> (b: bool)
    ensures
        b == is_alnum(c),
{
    ('a' <= c && c <= 'z') || ('A' <= c && c <= 'Z') || ('0' <= c && c <= '9')
}

/// Whether `word` appears as a whole word in `text` (surrounded by
/// non-alphanumeric characters or the string's ends).
pub fn contains_word_of(text: &[char], word: &[char]) -> (b: bool)
    ensures
        b == contains_word(text@, word@),
{
    if word.len() == 0 {
        return false;
    }
    let mut i: usize = 0;
    while i <= text.len() && word.len() <= text.len() - i
        invariant
            word.len() > 0,
            contains_word(text@, word@) == word_from(text@, word@, i as int),
        decreases text.len() - i,
    {
        if has_at(text, i, word) {
            let before_ok = i == 0 || !is_alnum_of(text[i - 1]);
            let after = i + word.len();
            let after_ok = after >= text.len() || !is_alnum_of(text[after]);
            if before_ok && after_ok {
                return true;
            }
            i = after;
        } else {
            i = i + 1;
        }
    }
    false
}



fn has(t: &[char], lit: &str) -> (b: bool)
    ensures
        b == contains(t@, lit@),
{
    contains_of(t, &chars_of(lit))
}

fn has_word(t: &[char], lit: &str) -> (b: bool)
    ensures
        b == contains_word(t@, lit@),
{
    contains_word_of(t, &chars_of(lit))
}

/// Does this line look like part of a boolean expression rather than a
/// static return value?
pub fn looks_like_expression_of(t: &[char]) -> (b: bool)
    ensures
        b == looks_like_expression(t@),
{
    if eq_ignore_ascii_case_of(t, &chars_of("true")) || eq_ignore_ascii_case_of(
        t,
        &chars_of("false"),
    ) {
        return false;
    }
    if starts_with_of(t, &chars_of("\"")) || starts_with_of(t, &chars_of("'")) || starts_with_of(
        t,
        &chars_of("json("),
    ) {
        return false;
    }
    if parses_i64_of(t) {
        return false;
    }
    let has_operator = has(t, "==") || has(t, "!=") || has(t, ">=") || has(t, "<=") || has(
        t,
        " > ",
    ) || has(t, " < ") || has(t, " ~ ") || has(t, "!~") || has(t, "^~") || has(t, "~$");
    let has_keyword = has_word(t, "and") || has_word(t, "or") || has_word(t, "in") || has_word(
        t,
        "not",
    );
    let has_function = has(t, "segment(") || has(t, "percentage(") || has(t, "coalesce(") || has(
        t,
        "lower(",
    ) || has(t, "upper(") || has(t, "LOWER(") || has(t, "UPPER(") || has(t, "now(") || has(
        t,
        "NOW(",
    );
    has_operator || has_keyword || has_function
}

// ── The formatting pass ────────────────────────────────────────────

/// The state of the formatting pass between two lines.
pub struct FmtState {
    /// The formatted lines so far.
    pub out: Seq<Seq<char>>,
    /// The brace depth.
    pub depth: nat,
    pub in_block_comment: bool,
    pub prev_expects_continuation: bool,
    pub prev_was_blank: bool,
    pub prev_was_open_brace: bool,
    /// No line so far made normalization fail.
    pub ok: bool,
}

/// The state before the first line.
pub open spec fn fmt_init() -> FmtState {
    FmtState {
        out: seq![],
        depth: 0,
        in_block_comment: false,
        prev_expects_continuation: false,
        prev_was_blank: false,
        prev_was_open_brace: false,
        ok: true,
    }
}

/// Index after up to `max` leading spaces of `s` from index `k` on.
pub open spec fn indent_end(s: Seq<char>, k: int, max: int) -> int
    decreases s.len() - k,
{
    if 0 <= k < max && k < s.len() && s[k] == ' ' {
        indent_end(s, k + 1, max)
    } else {
        k
    }
}

/// `line` with up to `max` leading spaces removed.
pub open spec fn strip_indent(line: Seq<char>, max: int) -> Seq<char> {
    line.subrange(indent_end(line, 0, max), line.len() as int)
}

/// `n` spaces.
pub open spec fn spaces(n: int) -> Seq<char> {
    Seq::new(n as nat, |i: int| ' ')
}

/// Line types that open a block.
pub open spec fn opens_block(lt: LineType) -> bool {
    lt == LineType::FlagHeaderBlock || lt == LineType::SegmentHeader || lt == LineType::EnvHeaderBlock
}

/// Line types whose content is kept as a comment (no space collapsing).
pub open spec fn is_comment_type(lt: LineType) -> bool {
    lt == LineType::LineComment || lt == LineType::BlockCommentStart || lt
        == LineType::BlockCommentMiddle || lt == LineType::BlockCommentEnd || lt
        == LineType::BlockCommentFull || lt == LineType::Blank
}

/// The formatting pass after one more source line.
pub open spec fn fmt_step(st: FmtState, line: Seq<char>) -> FmtState {
    let t = trim(line);
    let lt = line_type_of(t, st.in_block_comment, st.prev_expects_continuation);
    let in_bc = if lt == LineType::BlockCommentStart {
        true
    } else if lt == LineType::BlockCommentEnd {
        false
    } else {
        st.in_block_comment
    };
    if lt == LineType::Blank {
        if st.prev_was_open_brace || st.prev_was_blank || st.out.len() == 0 {
            FmtState { in_block_comment: in_bc, ..st }
        } else {
            FmtState {
                out: st.out.push(seq![]),
                in_block_comment: in_bc,
                prev_was_blank: true,
                prev_expects_continuation: false,
                prev_was_open_brace: false,
                ..st
            }
        }
    } else {
        let out1 = if lt == LineType::ClosingBrace && st.prev_was_blank && st.out.len() > 0
            && st.out.last().len() == 0 {
            st.out.drop_last()
        } else {
            st.out
        };
        let depth = if lt == LineType::ClosingBrace && st.depth > 0 {
            (st.depth - 1) as nat
        } else {
            st.depth
        };
        let indent = if lt == LineType::Continuation {
            (depth + 1) * 4
        } else {
            depth * 4
        };
        let norm0 = if lt == LineType::BlockCommentMiddle || lt == LineType::BlockCommentEnd {
            Some(strip_indent(line, indent as int))
        } else {
            line_text(t, lt)
        };
        let n0 = match norm0 {
            Some(n) => n,
            None => seq![],
        };
        let norm = if is_comment_type(lt) {
            n0
        } else {
            spaces_collapsed(n0)
        };
        let formatted = if norm.len() == 0 {
            seq![]
        } else {
            spaces(indent as int) + norm
        };
        let depth2 = if opens_block(lt) {
            depth + 1
        } else {
            depth
        };
        let cont = if lt == LineType::RuleExpr || lt == LineType::Continuation {
            !contains(t, "->"@)
        } else if lt == LineType::StaticValue && depth2 > 0 {
            looks_like_expression(t) && !contains(t, "->"@)
        } else {
            false
        };
        FmtState {
            out: out1.push(formatted),
            depth: depth2,
            in_block_comment: in_bc,
            prev_expects_continuation: cont,
            prev_was_blank: false,
            prev_was_open_brace: opens_block(lt),
            ok: st.ok && norm0 is Some,
        }
    }
}

/// The formatting pass over `ls` from index `k` on.
pub open spec fn fmt_from(ls: Seq<Seq<char>>, k: int, st: FmtState) -> FmtState
    decreases ls.len() - k,
{
    if k < 0 || k >= ls.len() {
        st
    } else {
        fmt_from(ls, k + 1, fmt_step(st, ls[k]))
    }
}

/// `ls` without its trailing empty lines.
pub open spec fn drop_trailing_blank(ls: Seq<Seq<char>>) -> Seq<Seq<char>>
    decreases ls.len(),
{
    if ls.len() > 0 && ls.last().len() == 0 {
        drop_trailing_blank(ls.drop_last())
    } else {
        ls
    }
}

/// The formatted lines of `input`.
pub open spec fn formatted_lines(input: Seq<char>) -> Seq<Seq<char>> {
    drop_trailing_blank(fmt_from(lines(input), 0, fmt_init()).out)
}

/// The formatted text of `input`, or `None` when a `@test` annotation's
/// parameter list cannot be sliced.
pub open spec fn formatted(input: Seq<char>) -> Option<Seq<char>> {
    if fmt_from(lines(input), 0, fmt_init()).ok {
        Some(join_with(formatted_lines(input), "\n"@) + "\n"@)
    } else {
        None
    }
}

/// The input can be formatted (see `formatted`).
pub open spec fn format_ok(input: Seq<char>) -> bool {
    formatted(input) is Some
}

/// Strip up to `max_strip` leading spaces from a line, keeping any further
/// indentation (such as the ` * ` of block comments).
pub fn strip_indent_of(line: &[char], max_strip: usize) -> (r: Vec<char>)
    ensures
        r@ == strip_indent(line@, max_strip as int),
{
    let mut k: usize = 0;
    while k < max_strip && k < line.len() && line[k] == ' '
        invariant
            k <= line.len(),
            indent_end(line@, 0, max_strip as int) == indent_end(line@, k as int, max_strip as int),
        decreases line.len() - k,
    {
        k = k + 1;
    }
    slice_of(line, k, line.len())
}

/// Every line of a text is shorter than the text itself, and there are no
/// more lines than characters.
proof fn lemma_lines_bound(s: Seq<char>, i: int)
    requires
        0 <= i <= s.len(),
    ensures
        lines_from_len_ok(s, i),
    decreases s.len() + 1 - i,
{
    if i < s.len() {
        let k = crate::text::nl_from(s, i);
        crate::text::lemma_nl_from_bounds(s, i);
        lemma_lines_bound(s, if k + 1 <= s.len() { k + 1 } else { s.len() as int });
        if k + 1 > s.len() {
            assert(crate::text::lines_from(s, k + 1) =~= seq![]);
        }
    }
}

/// `lines_from(s, i)` has at most `s.len() - i` lines.
pub open spec fn lines_from_len_ok(s: Seq<char>, i: int) -> bool {
    crate::text::lines_from(s, i).len() <= s.len() - i
}

/// The exec state's view.
pub open spec fn state_of(
    out: Seq<Vec<char>>,
    depth: usize,
    in_bc: bool,
    cont: bool,
    blank: bool,
    open: bool,
    ok: bool,
) -> FmtState {
    FmtState {
        out: views(out),
        depth: depth as nat,
        in_block_comment: in_bc,
        prev_expects_continuation: cont,
        prev_was_blank: blank,
        prev_was_open_brace: open,
        ok: ok,
    }
}

/// Format Flagfile source text given as characters; `None` when a `@test`
/// annotation's parameter list cannot be sliced.
pub fn format_chars(input: &[char]) -> (r: Option<Vec<char>>)
    requires
        input.len() <= usize::MAX / 8,
    ensures
        match r {
            Some(v) => formatted(input@) == Some(v@),
            None => formatted(input@) is None,
        },
{
    let ls = lines_of(input);
    let ghost lsv = lines(input@);
    proof {
        lemma_lines_bound(input@, 0);
    }
    let mut output: Vec<Vec<char>> = Vec::new();
    let mut depth: usize = 0;
    let mut in_bc = false;
    let mut cont = false;
    let mut blank = false;
    let mut open = false;
    let mut ok = true;
    let mut k: usize = 0;
    assert(views(output@) =~= seq![]);
    while k < ls.len()
        invariant
            views(ls@) == lsv,
            lsv.len() <= input.len() <= usize::MAX / 8,
            k <= ls.len(),
            depth <= k,
            fmt_from(lsv, 0, fmt_init()) == fmt_from(
                lsv,
                k as int,
                state_of(output@, depth, in_bc, cont, blank, open, ok),
            ),
        decreases ls.len() - k,
    {
        let line = &ls[k];
        assert(line@ == lsv[k as int]);
        let t = trim_of(line);
        let lt = classify_chars(&t, in_bc, cont);
        let ghost st = state_of(output@, depth, in_bc, cont, blank, open, ok);
        if lt == LineType::BlockCommentStart {
            in_bc = true;
        } else if lt == LineType::BlockCommentEnd {
            in_bc = false;
        }
        if lt == LineType::Blank {
            if open || blank || output.len() == 0 {
                k = k + 1;
                continue ;
            }
            blank = true;
            let ghost ov = views(output@);
            output.push(Vec::new());
            assert(views(output@) =~= ov.push(seq![]));
            cont = false;
            open = false;
            k = k + 1;
            continue ;
        }
        if lt == LineType::ClosingBrace && blank {
            if output.len() > 0 && output[output.len() - 1].len() == 0 {
                let ghost ov = views(output@);
                output.pop();
                assert(views(output@) =~= ov.drop_last());
            }
        }
        blank = false;
        if lt == LineType::ClosingBrace && depth > 0 {
            depth = depth - 1;
        }
        let indent: usize = if lt == LineType::Continuation {
            (depth + 1) * INDENT
        } else {
            depth * INDENT
        };
        let norm0: Option<Vec<char>> = if lt == LineType::BlockCommentMiddle || lt
            == LineType::BlockCommentEnd {
            Some(strip_indent_of(line, indent))
        } else {
            line_chars(&t, lt)
        };
        let norm_ok = norm0.is_some();
        let n0 = match norm0 {
            Some(n) => n,
            None => Vec::new(),
        };
        let comment_like = lt == LineType::LineComment || lt == LineType::BlockCommentStart || lt
            == LineType::BlockCommentMiddle || lt == LineType::BlockCommentEnd || lt
            == LineType::BlockCommentFull || lt == LineType::Blank;
        let norm = if comment_like {
            n0
        } else {
            collapse_chars(&n0)
        };
        let mut formatted_line: Vec<char> = Vec::new();
        if norm.len() > 0 {
            let mut m: usize = 0;
            while m < indent
                invariant
                    m <= indent,
                    formatted_line@ == spaces(m as int),
                decreases indent - m,
            {
                formatted_line.push(' ');
                m = m + 1;
                assert(formatted_line@ =~= spaces(m as int));
            }
            push_all(&mut formatted_line, &norm);
        }
        let ghost ov = views(output@);
        output.push(formatted_line);
        assert(views(output@) =~= ov.push(formatted_line@));
        open = false;
        if lt == LineType::FlagHeaderBlock || lt == LineType::SegmentHeader || lt
            == LineType::EnvHeaderBlock {
            depth = depth + 1;
            open = true;
        }
        let arrow = chars_of("->");
        cont = if lt == LineType::RuleExpr || lt == LineType::Continuation {
            !contains_of(&t, &arrow)
        } else if lt == LineType::StaticValue && depth > 0 {
            looks_like_expression_of(&t) && !contains_of(&t, &arrow)
        } else {
            false
        };
        ok = ok && norm_ok;
        k = k + 1;
    }
    let ghost fin = fmt_from(lsv, 0, fmt_init());
    assert(fin.out == views(output@));
    while output.len() > 0 && output[output.len() - 1].len() == 0
        invariant
            drop_trailing_blank(fin.out) == drop_trailing_blank(views(output@)),
        decreases output.len(),
    {
        let ghost ov = views(output@);
        output.pop();
        assert(views(output@) =~= ov.drop_last());
    }
    if !ok {
        return None;
    }
    let mut result = join_chars(&output, &chars_of("\n"));
    result.push('\n');
    proof {
        reveal_strlit("\n");
        assert(drop_trailing_blank(views(output@)) == views(output@));
    }
    Some(result)
}


/// Format Flagfile source text; `None` when a `@test` annotation's
/// parameter list cannot be sliced (its last `)` stands before its first `(`).
pub fn try_format_flagfile(input: &str) -> (r: Option<String>)
    requires
        input@.len() <= usize::MAX / 8,
    ensures
        crate::formatter::normalize::opt_view(r) == formatted(input@),
{
    match format_chars(&chars_of(input)) {
        Some(v) => Some(string_of(&v)),
        None => None,
    }
}

/// Format a Flagfile source string, returning the formatted version: lines
/// indented by four spaces per brace level (eight for continuation lines),
/// operators, commas and arrows spaced, booleans upper-cased, JSON values
/// compacted, blank lines collapsed, and a final newline.
pub fn format_flagfile(input: &str) -> (r: String)
    requires
        format_ok(input@),
        input@.len() <= usize::MAX / 8,
    ensures
        Some(r@) == formatted(input@),
        r@.len() > 0 && r@.last() == '\n',
{
    match format_chars(&chars_of(input)) {
        Some(v) => {
            let r = string_of(&v);
            proof {
                reveal_strlit("\n");
                let j = join_with(formatted_lines(input@), "\n"@);
                assert((j + "\n"@).last() == '\n');
            }
            r
        },
        None => String::new(),
    }
}

} // verus!
