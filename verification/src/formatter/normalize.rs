//! Content normalization: operator spacing, comma spacing, boolean case,
//! arrow spacing and brace spacing, all outside quoted strings, regular
//! expressions and `json(...)` bodies.
use vstd::prelude::*;
use crate::formatter::classify::{arrow_pos, find_unquoted_pair, unquoted_pair, LineType};
use crate::formatter::walk::{walk, walk_unquoted, Processor, QuoteState};
use crate::text::{
    chars_of, ends_with, join_chars, join_with, ends_with_of, eq_ignore_ascii_case, eq_ignore_ascii_case_of, find_char,
    find_char_of, push_all, rfind_char, rfind_char_of, slice_of, starts_with, starts_with_of,
    string_of, trim, trim_end, trim_end_of, trim_of, trim_start, trim_start_of,
};

verus! {

// ── Expression normalization ───────────────────────────────────────

/// Spaces around comparison and match operators.
pub open spec fn operators_spaced(e: Seq<char>) -> Seq<char> {
    walk(e, 0, QuoteState::Normal, Processor::Operators, seq![])
}

/// `", "` after commas inside parenthesized lists.
pub open spec fn commas_spaced(e: Seq<char>) -> Seq<char> {
    walk(e, 0, QuoteState::Normal, Processor::Commas(0), seq![])
}

/// Runs of spaces outside protected regions collapsed into one.
pub open spec fn spaces_collapsed(e: Seq<char>) -> Seq<char> {
    walk(e, 0, QuoteState::Normal, Processor::Spaces, seq![])
}

/// Operator spacing, then comma spacing, then space collapsing.
pub open spec fn expression_text(e: Seq<char>) -> Seq<char> {
    spaces_collapsed(commas_spaced(operators_spaced(e)))
}

pub fn operators_chars(e: &[char]) -> (r: Vec<char>)
    ensures
        r@ == operators_spaced(e@),
{
    walk_unquoted(e, Processor::Operators)
}

pub fn commas_chars(e: &[char]) -> (r: Vec<char>)
    ensures
        r@ == commas_spaced(e@),
{
    walk_unquoted(e, Processor::Commas(0))
}

pub fn collapse_chars(e: &[char]) -> (r: Vec<char>)
    ensures
        r@ == spaces_collapsed(e@),
{
    walk_unquoted(e, Processor::Spaces)
}

pub fn expression_chars(e: &[char]) -> (r: Vec<char>)
    ensures
        r@ == expression_text(e@),
{
    let a = operators_chars(e);
    let b = commas_chars(&a);
    collapse_chars(&b)
}

/// Ensure spaces around comparison and match operators
/// (`!^~ !~$ ^~ ~$ !~ ~ <= >= != == = < >`, a single `=` becoming `==`).
pub fn normalize_operators(expr: &str) -> (r: String)
    ensures
        r@ == operators_spaced(expr@),
{
    string_of(&operators_chars(&chars_of(expr)))
}

/// Normalize comma spacing inside parenthesized lists: `(a,b,c)` becomes `(a, b, c)`.
pub fn normalize_commas(expr: &str) -> (r: String)
    ensures
        r@ == commas_spaced(expr@),
{
    string_of(&commas_chars(&chars_of(expr)))
}

/// Collapse runs of spaces into single spaces outside quoted strings.
pub fn collapse_spaces(s: &str) -> (r: String)
    ensures
        r@ == spaces_collapsed(s@),
{
    string_of(&collapse_chars(&chars_of(s)))
}

/// Operator spacing, comma spacing, then space collapsing.
pub fn normalize_expression(expr: &str) -> (r: String)
    ensures
        r@ == expression_text(expr@),
{
    string_of(&expression_chars(&chars_of(expr)))
}

// ── Return values ──────────────────────────────────────────────────

/// The body `{...}` of a `json({...})` value.
pub open spec fn json_body(val: Seq<char>) -> Option<Seq<char>> {
    let t = trim(val);
    if starts_with(t, "json("@) && ends_with(t, ")"@) {
        Some(t.subrange(5, t.len() - 1))
    } else {
        None
    }
}

/// The compact JSON text `serde_json` prints for the value it parses from
/// `body`, or `None` when `body` is not valid JSON.
pub uninterp spec fn compact_json_text(body: Seq<char>) -> Option<Seq<char>>;

/// The normalized return value, given the compacted JSON body (if any).
pub open spec fn return_value_with(val: Seq<char>, compacted: Option<Seq<char>>) -> Seq<char> {
    if eq_ignore_ascii_case(val, "true"@) {
        "TRUE"@
    } else if eq_ignore_ascii_case(val, "false"@) {
        "FALSE"@
    } else if json_body(val) is Some && compacted is Some {
        "json("@ + compacted->0 + ")"@
    } else {
        val
    }
}

/// The normalized return value: boolean case, compact JSON.
pub open spec fn return_value_text(val: Seq<char>) -> Seq<char> {
    return_value_with(
        val,
        match json_body(val) {
            Some(b) => compact_json_text(b),
            None => None,
        },
    )
}

/// The view of an optional string.
pub open spec fn opt_view(o: Option<String>) -> Option<Seq<char>> {
    match o {
        Some(s) => Some(s@),
        None => None,
    }
}

/// Parses `body` as JSON with `serde_json::from_str::<serde_json::Value>` and
/// prints the value back with `serde_json::to_string`; `None` when it does
/// not parse. The result is named `compact_json_text(body)`.
#[verifier::external_body]
pub(crate) fn compact_json(body: &str) -> (r: Option<String>)
    ensures
        opt_view(r) == compact_json_text(body@),
{
    match serde_json::from_str::<serde_json::Value>(body) {
        Ok(v) => serde_json::to_string(&v).ok(),
        Err(_) => None,
    }
}

/// Extract the JSON body from `json({...})`, returning the `{...}` part.
pub fn extract_json_body_chars(val: &[char]) -> (r: Option<Vec<char>>)
    ensures
        match r {
            Some(b) => json_body(val@) == Some(b@),
            None => json_body(val@) is None,
        },
{
    let t = trim_of(val);
    let js = chars_of("json(");
    let cp = chars_of(")");
    proof {
        reveal_strlit("json(");
        reveal_strlit(")");
    }
    if starts_with_of(&t, &js) && ends_with_of(&t, &cp) {
        proof {
            assert(t@.subrange(0, 5)[4] == '(');
            assert(t@.subrange(t@.len() - 1, t@.len() as int)[0] == ')');
        }
        Some(slice_of(&t, 5, t.len() - 1))
    } else {
        None
    }
}

/// Extract the JSON body from `json({...})`, returning the `{...}` part.
pub fn extract_json_body(val: &str) -> (r: Option<String>)
    ensures
        opt_view(r) == json_body(val@),
{
    match extract_json_body_chars(&chars_of(val)) {
        Some(b) => Some(string_of(&b)),
        None => None,
    }
}

/// Normalize a return value given the compacted JSON body.
pub fn normalize_return_value_with(val: &[char], compacted: Option<&[char]>) -> (r: Vec<char>)
    ensures
        r@ == return_value_with(
            val@,
            match compacted {
                Some(c) => Some(c@),
                None => None,
            },
        ),
{
    let t = chars_of("true");
    let f = chars_of("false");
    if eq_ignore_ascii_case_of(val, &t) {
        return chars_of("TRUE");
    }
    if eq_ignore_ascii_case_of(val, &f) {
        return chars_of("FALSE");
    }
    let body = extract_json_body_chars(val);
    match (body, compacted) {
        (Some(_), Some(c)) => {
            let mut r = chars_of("json(");
            push_all(&mut r, c);
            push_all(&mut r, &chars_of(")"));
            r
        },
        _ => slice_of(val, 0, val.len()),
    }
}

/// Normalize a return value: boolean case, JSON compacted through serde.
pub fn return_value_chars(val: &[char]) -> (r: Vec<char>)
    ensures
        r@ == return_value_text(val@),
{
    match extract_json_body_chars(val) {
        Some(b) => {
            let compacted = compact_json(string_of(&b).as_str());
            match compacted {
                Some(c) => {
                    let cc = chars_of(c.as_str());
                    normalize_return_value_with(val, Some(cc.as_slice()))
                },
                None => normalize_return_value_with(val, None),
            }
        },
        None => normalize_return_value_with(val, None),
    }
}

/// Normalize a return value: boolean case, JSON compacted through serde.
pub fn normalize_return_value(val: &str) -> (r: String)
    ensures
        r@ == return_value_text(val@),
{
    string_of(&return_value_chars(&chars_of(val)))
}

// ── Line splitting ─────────────────────────────────────────────────

/// The code before a trailing `//` comment outside quotes, and the comment.
pub open spec fn split_comment(line: Seq<char>) -> (Seq<char>, Option<Seq<char>>) {
    match unquoted_pair(line, '/', '/') {
        Some(i) => (line.subrange(0, i), Some(line.subrange(i, line.len() as int))),
        None => (line, None),
    }
}

pub fn split_comment_chars(line: &[char]) -> (r: (Vec<char>, Option<Vec<char>>))
    ensures
        r.0@ == split_comment(line@).0,
        match r.1 {
            Some(c) => split_comment(line@).1 == Some(c@),
            None => split_comment(line@).1 is None,
        },
{
    match find_unquoted_pair(line, '/', '/') {
        Some(i) => (slice_of(line, 0, i), Some(slice_of(line, i, line.len()))),
        None => (slice_of(line, 0, line.len()), None),
    }
}

/// Split a line into code and trailing `// comment`, respecting quoted strings.
pub fn split_trailing_comment(line: &str) -> (r: (String, Option<String>))
    ensures
        r.0@ == split_comment(line@).0,
        opt_view(r.1) == split_comment(line@).1,
{
    let (c, m) = split_comment_chars(&chars_of(line));
    let m2 = match m {
        Some(x) => Some(string_of(&x)),
        None => None,
    };
    (string_of(&c), m2)
}

// ── Individual line normalizers ────────────────────────────────────

/// `name {` with exactly one space before the brace.
pub open spec fn block_header_text(line: Seq<char>) -> Seq<char> {
    match rfind_char(line, '{') {
        Some(p) => trim_end(line.subrange(0, p)) + " {"@,
        None => line,
    }
}

/// `lhs -> value` with the arrow spaced and the value normalized.
pub open spec fn short_form_text(line: Seq<char>) -> Seq<char> {
    match arrow_pos(line) {
        Some(i) => trim(line.subrange(0, i)) + " -> "@ + return_value_text(
            trim(line.subrange(i + 2, line.len() as int)),
        ),
        None => line,
    }
}

/// `code` followed by its trailing comment, if any.
pub open spec fn with_comment(n: Seq<char>, cmt: Option<Seq<char>>) -> Seq<char> {
    match cmt {
        Some(c) => n + " "@ + trim(c),
        None => n,
    }
}

/// A rule line: expression, arrow, return value and trailing comment.
pub open spec fn rule_line_text(line: Seq<char>) -> Seq<char> {
    let (code0, cmt) = split_comment(line);
    let code = trim(code0);
    let n = match arrow_pos(code) {
        Some(i) => expression_text(trim(code.subrange(0, i))) + " -> "@ + return_value_text(
            trim(code.subrange(i + 2, code.len() as int)),
        ),
        None => expression_text(code),
    };
    with_comment(n, cmt)
}

/// A bare return value with its trailing comment.
pub open spec fn static_value_text(line: Seq<char>) -> Seq<char> {
    let (code, cmt) = split_comment(line);
    with_comment(return_value_text(trim(code)), cmt)
}

fn cat3(a: Vec<char>, b: &str, c: &[char]) -> (r: Vec<char>)
    ensures
        r@ == a@ + b@ + c@,
{
    let mut r = a;
    push_all(&mut r, &chars_of(b));
    push_all(&mut r, c);
    r
}

/// `name {` with exactly one space before the brace (flag, segment and
/// `@env` block headers alike).
pub fn block_header_chars(line: &[char]) -> (r: Vec<char>)
    ensures
        r@ == block_header_text(line@),
{
    match rfind_char_of(line, '{') {
        Some(p) => {
            let head = slice_of(line, 0, p);
            let mut r = trim_end_of(&head);
            push_all(&mut r, &chars_of(" {"));
            r
        },
        None => slice_of(line, 0, line.len()),
    }
}

pub fn short_form_chars(line: &[char]) -> (r: Vec<char>)
    ensures
        r@ == short_form_text(line@),
{
    match find_unquoted_pair(line, '-', '>') {
        Some(i) => {
            let lhs = trim_of(&slice_of(line, 0, i));
            let rhs = trim_of(&slice_of(line, i + 2, line.len()));
            cat3(lhs, " -> ", &return_value_chars(&rhs))
        },
        None => slice_of(line, 0, line.len()),
    }
}

fn with_comment_chars(n: Vec<char>, cmt: Option<Vec<char>>) -> (r: Vec<char>)
    ensures
        r@ == with_comment(
            n@,
            match cmt {
                Some(c) => Some(c@),
                None => None,
            },
        ),
{
    match cmt {
        Some(c) => cat3(n, " ", &trim_of(&c)),
        None => n,
    }
}

pub fn rule_line_chars(line: &[char]) -> (r: Vec<char>)
    ensures
        r@ == rule_line_text(line@),
{
    let (code0, cmt) = split_comment_chars(line);
    let code = trim_of(&code0);
    let n = match find_unquoted_pair(&code, '-', '>') {
        Some(i) => {
            let e = expression_chars(&trim_of(&slice_of(&code, 0, i)));
            let v = return_value_chars(&trim_of(&slice_of(&code, i + 2, code.len())));
            cat3(e, " -> ", &v)
        },
        None => expression_chars(&code),
    };
    with_comment_chars(n, cmt)
}

pub fn static_value_chars(line: &[char]) -> (r: Vec<char>)
    ensures
        r@ == static_value_text(line@),
{
    let (code, cmt) = split_comment_chars(line);
    with_comment_chars(return_value_chars(&trim_of(&code)), cmt)
}

/// Short form `FF-name -> value` or `@env name -> value`: arrow spacing and
/// return-value normalization.
pub fn normalize_short_form(line: &str) -> (r: String)
    ensures
        r@ == short_form_text(line@),
{
    string_of(&short_form_chars(&chars_of(line)))
}

/// Rule line `expression -> value`, possibly with a trailing comment.
pub fn normalize_rule_line(line: &str) -> (r: String)
    ensures
        r@ == rule_line_text(line@),
{
    string_of(&rule_line_chars(&chars_of(line)))
}

/// Bare return value (no condition), possibly with a trailing comment.
pub fn normalize_static_value(line: &str) -> (r: String)
    ensures
        r@ == static_value_text(line@),
{
    string_of(&static_value_chars(&chars_of(line)))
}


// ── @test annotations ──────────────────────────────────────────────

/// The trimmed comma-separated parts of a parameter list from index `i` on,
/// commas inside quotes and brackets not splitting; `cur` is the part being
/// read, `parts` those already complete.
pub open spec fn param_parts_from(
    s: Seq<char>,
    i: int,
    cur: Seq<char>,
    parts: Seq<Seq<char>>,
    dq: bool,
    sq: bool,
    bd: nat,
) -> Seq<Seq<char>>
    decreases s.len() - i,
{
    if i < 0 || i >= s.len() {
        parts.push(trim(cur))
    } else {
        let ch = s[i];
        if ch == '"' && !sq {
            param_parts_from(s, i + 1, cur.push(ch), parts, !dq, sq, bd)
        } else if ch == '\'' && !dq {
            param_parts_from(s, i + 1, cur.push(ch), parts, dq, !sq, bd)
        } else if ch == '[' && !dq && !sq {
            param_parts_from(s, i + 1, cur.push(ch), parts, dq, sq, bd + 1)
        } else if ch == ']' && !dq && !sq {
            param_parts_from(
                s,
                i + 1,
                cur.push(ch),
                parts,
                dq,
                sq,
                if bd > 0 { (bd - 1) as nat } else { 0 },
            )
        } else if ch == ',' && !dq && !sq && bd == 0 {
            param_parts_from(s, i + 1, seq![], parts.push(trim(cur)), dq, sq, bd)
        } else {
            param_parts_from(s, i + 1, cur.push(ch), parts, dq, sq, bd)
        }
    }
}

/// A parameter list with `", "` between its parameters.
pub open spec fn param_commas_text(params: Seq<char>) -> Seq<char> {
    join_with(param_parts_from(params, 0, seq![], seq![], false, false, 0), ", "@)
}

/// The parameter list of a test flag call with normalized commas; `None`
/// when the last `)` stands before the first `(` (the slicing of the
/// parameter list is then out of order).
pub open spec fn test_params_text(fc: Seq<char>) -> Option<Seq<char>> {
    match (find_char(fc, '('), rfind_char(fc, ')')) {
        (Some(ps), Some(pe)) => if pe < ps + 1 {
            None
        } else {
            Some(
                fc.subrange(0, ps + 1) + param_commas_text(fc.subrange(ps + 1, pe)) + fc.subrange(
                    pe,
                    fc.len() as int,
                ),
            )
        },
        _ => Some(fc),
    }
}

/// The first assertion operator (`!=` or `=`) outside parentheses,
/// brackets and quotes, from index `i` on: its index and whether it is `!=`.
pub open spec fn test_op_from(s: Seq<char>, i: int, pd: nat, bd: nat, sq: bool, dq: bool) -> Option<
    (int, bool),
>
    decreases s.len() - i,
{
    if i < 0 || i >= s.len() {
        None
    } else {
        let ch = s[i];
        let free = !sq && !dq;
        if ch == '\'' && !dq {
            test_op_from(s, i + 1, pd, bd, !sq, dq)
        } else if ch == '"' && !sq {
            test_op_from(s, i + 1, pd, bd, sq, !dq)
        } else if ch == '(' && free {
            test_op_from(s, i + 1, pd + 1, bd, sq, dq)
        } else if ch == ')' && free {
            test_op_from(s, i + 1, if pd > 0 { (pd - 1) as nat } else { 0 }, bd, sq, dq)
        } else if ch == '[' && free {
            test_op_from(s, i + 1, pd, bd + 1, sq, dq)
        } else if ch == ']' && free {
            test_op_from(s, i + 1, pd, if bd > 0 { (bd - 1) as nat } else { 0 }, sq, dq)
        } else if ch == '!' && free && pd == 0 && bd == 0 && i + 1 < s.len() && s[i + 1] == '=' {
            Some((i, true))
        } else if ch == '=' && free && pd == 0 && bd == 0 {
            Some((i, false))
        } else {
            test_op_from(s, i + 1, pd, bd, sq, dq)
        }
    }
}

/// A normalized `@test` annotation: `@test FLAG(a=b, c=d) == VALUE`;
/// `None` when its parameter list cannot be sliced.
pub open spec fn test_annotation_text(line: Seq<char>) -> Option<Seq<char>> {
    if !starts_with(line, "@test"@) {
        Some(line)
    } else {
        let body = trim_start(line.subrange(5, line.len() as int));
        match test_op_from(body, 0, 0, 0, false, false) {
            Some((i, neq)) => {
                let op_len = if neq || (i + 1 < body.len() && body[i + 1] == '=') {
                    2int
                } else {
                    1int
                };
                let flag = trim_end(body.subrange(0, i));
                let expected = trim_start(body.subrange(i + op_len, body.len() as int));
                match test_params_text(flag) {
                    Some(f) => Some(
                        "@test "@ + f + (if neq {
                            " != "@
                        } else {
                            " == "@
                        }) + expected,
                    ),
                    None => None,
                }
            },
            None => match test_params_text(body) {
                Some(f) => Some("@test "@ + f),
                None => None,
            },
        }
    }
}

/// Normalize commas in a parameter list, respecting quotes and brackets:
/// `a=b,c=d` becomes `a=b, c=d`.
pub fn param_commas_chars(params: &[char]) -> (r: Vec<char>)
    ensures
        r@ == param_commas_text(params@),
{
    let mut parts: Vec<Vec<char>> = Vec::new();
    let mut cur: Vec<char> = Vec::new();
    let mut dq = false;
    let mut sq = false;
    let mut bd: usize = 0;
    let mut i: usize = 0;
    assert(crate::text::views(parts@) =~= seq![]);
    while i < params.len()
        invariant
            i <= params.len(),
            bd <= i,
            param_parts_from(params@, 0, seq![], seq![], false, false, 0) == param_parts_from(
                params@,
                i as int,
                cur@,
                crate::text::views(parts@),
                dq,
                sq,
                bd as nat,
            ),
        decreases params.len() - i,
    {
        let ch = params[i];
        let ghost vp = crate::text::views(parts@);
        if ch == '"' && !sq {
            dq = !dq;
            cur.push(ch);
        } else if ch == '\'' && !dq {
            sq = !sq;
            cur.push(ch);
        } else if ch == '[' && !dq && !sq {
            bd = bd + 1;
            cur.push(ch);
        } else if ch == ']' && !dq && !sq {
            bd = if bd > 0 { bd - 1 } else { 0 };
            cur.push(ch);
        } else if ch == ',' && !dq && !sq && bd == 0 {
            let t = trim_of(&cur);
            parts.push(t);
            assert(crate::text::views(parts@) =~= vp.push(t@));
            cur = Vec::new();
        } else {
            cur.push(ch);
        }
        i = i + 1;
    }
    let ghost vp = crate::text::views(parts@);
    let t = trim_of(&cur);
    parts.push(t);
    assert(crate::text::views(parts@) =~= vp.push(t@));
    let sep = chars_of(", ");
    join_chars(&parts, &sep)
}

/// Normalize the comma spacing of a test flag call's parameter list;
/// `None` when the last `)` stands before the first `(`.
pub fn test_params_chars(fc: &[char]) -> (r: Option<Vec<char>>)
    ensures
        match r {
            Some(v) => test_params_text(fc@) == Some(v@),
            None => test_params_text(fc@) is None,
        },
{
    match (find_char_of(fc, '('), rfind_char_of(fc, ')')) {
        (Some(ps), Some(pe)) => {
            if pe <= ps {
                None
            } else {
                let mut r = slice_of(fc, 0, ps + 1);
                push_all(&mut r, &param_commas_chars(&slice_of(fc, ps + 1, pe)));
                push_all(&mut r, &slice_of(fc, pe, fc.len()));
                Some(r)
            }
        },
        _ => Some(slice_of(fc, 0, fc.len())),
    }
}

fn find_test_op(s: &[char]) -> (r: Option<(usize, bool)>)
    ensures
        match r {
            Some((i, neq)) => test_op_from(s@, 0, 0, 0, false, false) == Some((i as int, neq))
                && i < s.len() && (neq ==> i + 1 < s.len()),
            None => test_op_from(s@, 0, 0, 0, false, false) is None,
        },
{
    let mut pd: usize = 0;
    let mut bd: usize = 0;
    let mut sq = false;
    let mut dq = false;
    let mut i: usize = 0;
    while i < s.len()
        invariant
            i <= s.len(),
            pd <= i,
            bd <= i,
            test_op_from(s@, 0, 0, 0, false, false) == test_op_from(
                s@,
                i as int,
                pd as nat,
                bd as nat,
                sq,
                dq,
            ),
        decreases s.len() - i,
    {
        let ch = s[i];
        let free = !sq && !dq;
        if ch == '\'' && !dq {
            sq = !sq;
        } else if ch == '"' && !sq {
            dq = !dq;
        } else if ch == '(' && free {
            pd = pd + 1;
        } else if ch == ')' && free {
            pd = if pd > 0 { pd - 1 } else { 0 };
        } else if ch == '[' && free {
            bd = bd + 1;
        } else if ch == ']' && free {
            bd = if bd > 0 { bd - 1 } else { 0 };
        } else if ch == '!' && free && pd == 0 && bd == 0 && i + 1 < s.len() && s[i + 1] == '=' {
            return Some((i, true));
        } else if ch == '=' && free && pd == 0 && bd == 0 {
            return Some((i, false));
        }
        i = i + 1;
    }
    None
}

fn opt_chars_view(o: &Option<Vec<char>>) -> (r: Ghost<Option<Seq<char>>>)
    ensures
        r@ == match o {
            Some(v) => Some(v@),
            None => None::<Seq<char>>,
        },
{
    Ghost(
        match o {
            Some(v) => Some(v@),
            None => None,
        },
    )
}

/// Normalize a `@test` annotation line; `None` when its parameter list
/// cannot be sliced.
pub fn test_annotation_chars(line: &[char]) -> (r: Option<Vec<char>>)
    ensures
        match r {
            Some(v) => test_annotation_text(line@) == Some(v@),
            None => test_annotation_text(line@) is None,
        },
{
    let at = chars_of("@test");
    proof {
        reveal_strlit("@test");
    }
    if !starts_with_of(line, &at) {
        return Some(slice_of(line, 0, line.len()));
    }
    let body = trim_start_of(&slice_of(line, 5, line.len()));
    match find_test_op(&body) {
        Some((i, neq)) => {
            let op_len: usize = if neq || (i + 1 < body.len() && body[i + 1] == '=') {
                2
            } else {
                1
            };
            let flag = trim_end_of(&slice_of(&body, 0, i));
            let expected = trim_start_of(&slice_of(&body, i + op_len, body.len()));
            match test_params_chars(&flag) {
                Some(f) => {
                    let mut r = chars_of("@test ");
                    push_all(&mut r, &f);
                    if neq {
                        push_all(&mut r, &chars_of(" != "));
                    } else {
                        push_all(&mut r, &chars_of(" == "));
                    }
                    push_all(&mut r, &expected);
                    Some(r)
                },
                None => None,
            }
        },
        None => match test_params_chars(&body) {
            Some(f) => {
                let mut r = chars_of("@test ");
                push_all(&mut r, &f);
                Some(r)
            },
            None => None,
        },
    }
}

/// The annotation's parameter list can be sliced (see `test_params_text`).
pub open spec fn test_annotation_ok(line: Seq<char>) -> bool {
    test_annotation_text(line) is Some
}

/// Normalize a `@test` annotation line: comma spacing in the flag's
/// parameters and single spaces around the `==` / `!=` assertion.
pub fn normalize_test_annotation(line: &str) -> (r: String)
    requires
        test_annotation_ok(line@),
    ensures
        Some(r@) == test_annotation_text(line@),
{
    match test_annotation_chars(&chars_of(line)) {
        Some(v) => string_of(&v),
        None => String::new(),
    }
}

// ── Per-line dispatch ──────────────────────────────────────────────

/// The normalized content of a trimmed line of the given type; `None`
/// when a `@test` annotation's parameter list cannot be sliced.
pub open spec fn line_text(t: Seq<char>, lt: LineType) -> Option<Seq<char>> {
    match lt {
        LineType::Blank | LineType::LineComment | LineType::BlockCommentStart
        | LineType::BlockCommentMiddle | LineType::BlockCommentEnd
        | LineType::BlockCommentFull => Some(t),
        LineType::Annotation => if starts_with(t, "@test"@) {
            test_annotation_text(t)
        } else {
            Some(t)
        },
        LineType::ClosingBrace => Some("}"@),
        LineType::FlagHeaderBlock | LineType::SegmentHeader | LineType::EnvHeaderBlock => Some(
            block_header_text(t),
        ),
        LineType::FlagHeaderShort | LineType::EnvHeaderShort => Some(short_form_text(t)),
        LineType::RuleExpr | LineType::Continuation => Some(rule_line_text(t)),
        LineType::StaticValue => Some(static_value_text(t)),
    }
}

/// Normalize a trimmed line of the given type.
pub fn line_chars(t: &[char], lt: LineType) -> (r: Option<Vec<char>>)
    ensures
        match r {
            Some(v) => line_text(t@, lt) == Some(v@),
            None => line_text(t@, lt) is None,
        },
{
    match lt {
        LineType::Blank | LineType::LineComment | LineType::BlockCommentStart
        | LineType::BlockCommentMiddle | LineType::BlockCommentEnd
        | LineType::BlockCommentFull => Some(slice_of(t, 0, t.len())),
        LineType::Annotation => {
            if starts_with_of(t, &chars_of("@test")) {
                test_annotation_chars(t)
            } else {
                Some(slice_of(t, 0, t.len()))
            }
        },
        LineType::ClosingBrace => Some(chars_of("}")),
        LineType::FlagHeaderBlock | LineType::SegmentHeader | LineType::EnvHeaderBlock => Some(
            block_header_chars(t),
        ),
        LineType::FlagHeaderShort | LineType::EnvHeaderShort => Some(short_form_chars(t)),
        LineType::RuleExpr | LineType::Continuation => Some(rule_line_chars(t)),
        LineType::StaticValue => Some(static_value_chars(t)),
    }
}

/// Normalize a trimmed source line based on its classified type.
pub fn normalize_line(trimmed: &str, line_type: &LineType) -> (r: String)
    requires
        line_text(trimmed@, *line_type) is Some,
    ensures
        Some(r@) == line_text(trimmed@, *line_type),
{
    match line_chars(&chars_of(trimmed), *line_type) {
        Some(v) => string_of(&v),
        None => String::new(),
    }
}

} // verus!
