//! A quote-aware walk over an expression: text inside quoted strings,
//! regular-expression literals and `json(...)` bodies is copied verbatim,
//! every other character is offered to a processor that may rewrite it.
use vstd::prelude::*;
use crate::text::{lead_end, occurs_at, has_at, push_all, skip_ws};

verus! {

/// Where the walk currently stands with respect to protected regions.
#[derive(Clone, Copy, PartialEq, Eq, Structural)]
pub enum QuoteState {
    Normal,
    InSingle,
    InDouble,
    InRegex,
    /// Brace depth inside `json(...)`.
    InJson(usize),
}

/// The rewriting applied to characters outside protected regions.
#[derive(Clone, Copy, PartialEq, Eq, Structural)]
pub enum Processor {
    /// Spaces around comparison and match operators.
    Operators,
    /// `", "` after commas inside parentheses; the field is the paren depth.
    Commas(usize),
    /// Runs of spaces collapsed into one.
    Spaces,
}

/// `out` without its trailing space characters.
pub open spec fn trim_spaces_end(out: Seq<char>) -> Seq<char>
    decreases out.len(),
{
    if out.len() > 0 && out.last() == ' ' {
        trim_spaces_end(out.drop_last())
    } else {
        out
    }
}

/// First index at or after `k` that does not hold a space.
pub open spec fn spaces_end(s: Seq<char>, k: int) -> int
    decreases s.len() - k,
{
    if 0 <= k < s.len() && s[k] == ' ' {
        spaces_end(s, k + 1)
    } else {
        k
    }
}

/// The operator processor at index `i`: the new output and how many input
/// characters it consumed (0: the character is copied unchanged).
pub open spec fn ops_step(out: Seq<char>, s: Seq<char>, i: int) -> (Seq<char>, int) {
    let t = trim_spaces_end(out);
    if occurs_at(s, seq!['!', '^', '~'], i) {
        (t + seq![' ', '!', '^', '~', ' '], 3)
    } else if occurs_at(s, seq!['!', '~', '$'], i) {
        (t + seq![' ', '!', '~', '$', ' '], 3)
    } else if occurs_at(s, seq!['^', '~'], i) {
        (t + seq![' ', '^', '~', ' '], 2)
    } else if occurs_at(s, seq!['~', '$'], i) {
        (t + seq![' ', '~', '$', ' '], 2)
    } else if occurs_at(s, seq!['!', '~'], i) {
        (t + seq![' ', '!', '~', ' '], 2)
    } else if s[i] == '~' {
        (t + seq![' ', '~', ' '], 1)
    } else if occurs_at(s, seq!['<', '='], i) {
        (t + seq![' ', '<', '=', ' '], 2)
    } else if occurs_at(s, seq!['>', '='], i) {
        (t + seq![' ', '>', '=', ' '], 2)
    } else if occurs_at(s, seq!['!', '='], i) {
        (t + seq![' ', '!', '=', ' '], 2)
    } else if occurs_at(s, seq!['=', '='], i) {
        (t + seq![' ', '=', '=', ' '], 2)
    } else if s[i] == '=' {
        (t + seq![' ', '=', '=', ' '], 1)
    } else if s[i] == '<' {
        (t + seq![' ', '<', ' '], 1)
    } else if s[i] == '>' {
        if out.len() > 0 && out.last() == '-' {
            (out, 0)
        } else {
            (t + seq![' ', '>', ' '], 1)
        }
    } else {
        (out, 0)
    }
}

/// The comma processor at index `i` with parenthesis depth `d`.
pub open spec fn commas_step(d: usize, out: Seq<char>, s: Seq<char>, i: int) -> (usize, Seq<char>, int) {
    let ch = s[i];
    if ch == '(' {
        ((d + 1) as usize, out.push('('), 1)
    } else if ch == ')' {
        (if d > 0 { (d - 1) as usize } else { 0 }, out.push(')'), 1)
    } else if ch == ',' && d > 0 {
        (d, trim_spaces_end(out) + seq![',', ' '], lead_end(s, i + 1) - i)
    } else {
        (d, out, 0)
    }
}

/// The space-collapsing processor at index `i`.
pub open spec fn spaces_step(out: Seq<char>, s: Seq<char>, i: int) -> (Seq<char>, int) {
    if s[i] == ' ' {
        (if out.len() > 0 && out.last() == ' ' { out } else { out.push(' ') }, 1)
    } else {
        (out, 0)
    }
}

/// One processor step at index `i`.
pub open spec fn proc_step(p: Processor, out: Seq<char>, s: Seq<char>, i: int) -> (Processor, Seq<char>, int) {
    match p {
        Processor::Operators => {
            let (o, c) = ops_step(out, s, i);
            (p, o, c)
        },
        Processor::Commas(d) => {
            let (d2, o, c) = commas_step(d, out, s, i);
            (Processor::Commas(d2), o, c)
        },
        Processor::Spaces => {
            let (o, c) = spaces_step(out, s, i);
            (p, o, c)
        },
    }
}

/// Whether a `/` at index `i` opens a regular-expression literal.
pub open spec fn opens_regex(s: Seq<char>, i: int) -> bool {
    let prev = if i > 0 { s[i - 1] } else { ' ' };
    &&& s[i] == '/'
    &&& i + 1 < s.len()
    &&& s[i + 1] != '/'
    &&& s[i + 1] != '*'
    &&& (prev == ' ' || prev == '(' || prev == '~' || prev == ',')
}

/// The state after copying `ch` inside a `json(...)` body at depth `d`.
pub open spec fn json_next(d: usize, ch: char) -> QuoteState {
    if ch == '{' {
        QuoteState::InJson((d + 1) as usize)
    } else if ch == '}' {
        if d <= 1 {
            QuoteState::Normal
        } else {
            QuoteState::InJson((d - 1) as usize)
        }
    } else {
        QuoteState::InJson(d)
    }
}

/// The output of walking `s` from index `i` in quote state `q` with
/// processor `p`, having produced `out` so far.
pub open spec fn walk(s: Seq<char>, i: int, q: QuoteState, p: Processor, out: Seq<char>) -> Seq<char>
    decreases s.len() - i
    via walk_decreases
{
    if i < 0 || i >= s.len() {
        out
    } else {
        let ch = s[i];
        match q {
            QuoteState::InSingle => walk(
                s,
                i + 1,
                if ch == '\'' { QuoteState::Normal } else { q },
                p,
                out.push(ch),
            ),
            QuoteState::InDouble => walk(
                s,
                i + 1,
                if ch == '"' { QuoteState::Normal } else { q },
                p,
                out.push(ch),
            ),
            QuoteState::InRegex => walk(
                s,
                i + 1,
                if ch == '/' { QuoteState::Normal } else { q },
                p,
                out.push(ch),
            ),
            QuoteState::InJson(d) => walk(s, i + 1, json_next(d, ch), p, out.push(ch)),
            QuoteState::Normal => {
                if ch == '\'' {
                    walk(s, i + 1, QuoteState::InSingle, p, out.push(ch))
                } else if ch == '"' {
                    walk(s, i + 1, QuoteState::InDouble, p, out.push(ch))
                } else if opens_regex(s, i) {
                    walk(s, i + 1, QuoteState::InRegex, p, out.push(ch))
                } else if occurs_at(s, seq!['j', 's', 'o', 'n', '('], i) {
                    let j = spaces_end(s, i + 5);
                    let o = out + s.subrange(i, j);
                    if j < s.len() && s[j] == '{' {
                        walk(s, j + 1, QuoteState::InJson(1), p, o.push('{'))
                    } else {
                        walk(s, j, QuoteState::Normal, p, o)
                    }
                } else {
                    let (p2, o2, c) = proc_step(p, out, s, i);
                    if c == 0 {
                        walk(s, i + 1, QuoteState::Normal, p2, o2.push(ch))
                    } else {
                        walk(s, i + c, QuoteState::Normal, p2, o2)
                    }
                }
            },
        }
    }
}

/// `spaces_end` stays within `[k, s.len()]` and skips only spaces.
pub proof fn lemma_spaces_end(s: Seq<char>, k: int)
    requires
        0 <= k <= s.len(),
    ensures
        k <= spaces_end(s, k) <= s.len(),
        forall|m: int| k <= m < spaces_end(s, k) ==> s[m] == ' ',
    decreases s.len() - k,
{
    if k < s.len() && s[k] == ' ' {
        lemma_spaces_end(s, k + 1);
    }
}

/// `lead_end` stays within `[i, s.len()]`.
pub proof fn lemma_lead_end(s: Seq<char>, i: int)
    requires
        0 <= i <= s.len(),
    ensures
        i <= lead_end(s, i) <= s.len(),
    decreases s.len() - i,
{
    if i < s.len() && crate::text::is_ws(s[i]) {
        lemma_lead_end(s, i + 1);
    }
}

/// A processor step consumes between 0 and the remaining length.
pub proof fn lemma_proc_step(p: Processor, out: Seq<char>, s: Seq<char>, i: int)
    requires
        0 <= i < s.len(),
    ensures
        0 <= proc_step(p, out, s, i).2 <= s.len() - i,
{
    if let Processor::Commas(d) = p {
        lemma_lead_end(s, i + 1);
    }
}

#[via_fn]
proof fn walk_decreases(s: Seq<char>, i: int, q: QuoteState, p: Processor, out: Seq<char>) {
    if 0 <= i < s.len() {
        if q == QuoteState::Normal && occurs_at(s, seq!['j', 's', 'o', 'n', '('], i) {
            lemma_spaces_end(s, i + 5);
        }
        lemma_proc_step(p, out, s, i);
    }
}

/// Remove trailing spaces from the output buffer.
pub fn trim_trailing_space(out: &mut Vec<char>)
    ensures
        final(out)@ == trim_spaces_end(old(out)@),
{
    while out.len() > 0 && out[out.len() - 1] == ' '
        invariant
            trim_spaces_end(old(out)@) == trim_spaces_end(out@),
        decreases out.len(),
    {
        out.pop();
    }
}

fn push_op(out: &mut Vec<char>, op: &[char])
    ensures
        final(out)@ == trim_spaces_end(old(out)@) + seq![' '] + op@ + seq![' '],
{
    trim_trailing_space(out);
    out.push(' ');
    push_all(out, op);
    out.push(' ');
}

/// The operator processor: spaces around comparison and match operators.
fn ops_step_exec(out: &mut Vec<char>, s: &[char], i: usize) -> (c: usize)
    requires
        i < s.len(),
    ensures
        (final(out)@, c as int) == ops_step(old(out)@, s@, i as int),
{
    let ghost o = out@;
    if has_at(s, i, &['!', '^', '~']) {
        push_op(out, &['!', '^', '~']);
        3
    } else if has_at(s, i, &['!', '~', '$']) {
        push_op(out, &['!', '~', '$']);
        3
    } else if has_at(s, i, &['^', '~']) {
        push_op(out, &['^', '~']);
        2
    } else if has_at(s, i, &['~', '$']) {
        push_op(out, &['~', '$']);
        2
    } else if has_at(s, i, &['!', '~']) {
        push_op(out, &['!', '~']);
        2
    } else if s[i] == '~' {
        push_op(out, &['~']);
        1
    } else if has_at(s, i, &['<', '=']) {
        push_op(out, &['<', '=']);
        2
    } else if has_at(s, i, &['>', '=']) {
        push_op(out, &['>', '=']);
        2
    } else if has_at(s, i, &['!', '=']) {
        push_op(out, &['!', '=']);
        2
    } else if has_at(s, i, &['=', '=']) {
        push_op(out, &['=', '=']);
        2
    } else if s[i] == '=' {
        push_op(out, &['=', '=']);
        1
    } else if s[i] == '<' {
        push_op(out, &['<']);
        1
    } else if s[i] == '>' {
        if out.len() > 0 && out[out.len() - 1] == '-' {
            0
        } else {
            push_op(out, &['>']);
            1
        }
    } else {
        0
    }
}

/// The comma processor: `", "` after commas inside parentheses.
fn commas_step_exec(d: usize, out: &mut Vec<char>, s: &[char], i: usize) -> (r: (usize, usize))
    requires
        i < s.len(),
        d <= i,
    ensures
        (r.0, final(out)@, r.1 as int) == commas_step(d, old(out)@, s@, i as int),
        r.0 <= i + 1,
{
    let ch = s[i];
    if ch == '(' {
        out.push('(');
        (d + 1, 1)
    } else if ch == ')' {
        out.push(')');
        (if d > 0 { d - 1 } else { 0 }, 1)
    } else if ch == ',' && d > 0 {
        trim_trailing_space(out);
        out.push(',');
        out.push(' ');
        let e = skip_ws(s, i + 1);
        (d, e - i)
    } else {
        (d, 0)
    }
}

/// The space processor: runs of spaces collapse into one.
fn spaces_step_exec(out: &mut Vec<char>, s: &[char], i: usize) -> (c: usize)
    requires
        i < s.len(),
    ensures
        (final(out)@, c as int) == spaces_step(old(out)@, s@, i as int),
{
    if s[i] == ' ' {
        if !(out.len() > 0 && out[out.len() - 1] == ' ') {
            out.push(' ');
        }
        1
    } else {
        0
    }
}

/// The parenthesis depth carried by a processor.
pub open spec fn proc_depth(p: Processor) -> int {
    match p {
        Processor::Commas(d) => d as int,
        _ => 0,
    }
}

/// Walk `s`, copying protected regions verbatim and letting `p0` rewrite
/// everything else.
pub fn walk_unquoted(s: &[char], p0: Processor) -> (r: Vec<char>)
    requires
        proc_depth(p0) == 0,
    ensures
        r@ == walk(s@, 0, QuoteState::Normal, p0, seq![]),
{
    let mut out: Vec<char> = Vec::new();
    let mut q = QuoteState::Normal;
    let mut p = p0;
    let mut i: usize = 0;
    while i < s.len()
        invariant
            i <= s.len(),
            walk(s@, 0, QuoteState::Normal, p0, seq![]) == walk(s@, i as int, q, p, out@),
            proc_depth(p) <= i,
            q matches QuoteState::InJson(d) ==> d <= i,
        decreases s.len() - i,
    {
        let ch = s[i];
        match q {
            QuoteState::InSingle => {
                out.push(ch);
                if ch == '\'' {
                    q = QuoteState::Normal;
                }
                i = i + 1;
            },
            QuoteState::InDouble => {
                out.push(ch);
                if ch == '"' {
                    q = QuoteState::Normal;
                }
                i = i + 1;
            },
            QuoteState::InRegex => {
                out.push(ch);
                if ch == '/' {
                    q = QuoteState::Normal;
                }
                i = i + 1;
            },
            QuoteState::InJson(d) => {
                out.push(ch);
                if ch == '{' {
                    q = QuoteState::InJson(d + 1);
                } else if ch == '}' {
                    if d <= 1 {
                        q = QuoteState::Normal;
                    } else {
                        q = QuoteState::InJson(d - 1);
                    }
                }
                i = i + 1;
            },
            QuoteState::Normal => {
                if ch == '\'' {
                    q = QuoteState::InSingle;
                    out.push(ch);
                    i = i + 1;
                    continue ;
                }
                if ch == '"' {
                    q = QuoteState::InDouble;
                    out.push(ch);
                    i = i + 1;
                    continue ;
                }
                if ch == '/' && i + 1 < s.len() && s[i + 1] != '/' && s[i + 1] != '*' {
                    let prev = if i > 0 {
                        s[i - 1]
                    } else {
                        ' '
                    };
                    if prev == ' ' || prev == '(' || prev == '~' || prev == ',' {
                        q = QuoteState::InRegex;
                        out.push(ch);
                        i = i + 1;
                        continue ;
                    }
                }
                if ch == 'j' && has_at(s, i, &['j', 's', 'o', 'n', '(']) {
                    let ghost i0 = i as int;
                    let ghost o0 = out@;
                    proof {
                        lemma_spaces_end(s@, i0 + 5);
                    }
                    push_all(&mut out, &['j', 's', 'o', 'n', '(']);
                    i = i + 5;
                    assert(out@ == o0 + s@.subrange(i0, i as int));
                    while i < s.len() && s[i] == ' '
                        invariant
                            0 <= i0,
                            i0 + 5 <= i <= s.len(),
                            spaces_end(s@, i0 + 5) == spaces_end(s@, i as int),
                            out@ == o0 + s@.subrange(i0, i as int),
                        decreases s.len() - i,
                    {
                        out.push(' ');
                        i = i + 1;
                        assert(out@ =~= o0 + s@.subrange(i0, i as int));
                    }
                    if i < s.len() && s[i] == '{' {
                        q = QuoteState::InJson(1);
                        out.push('{');
                        i = i + 1;
                    }
                    continue ;
                }
                let ghost o0 = out@;
                proof {
                    lemma_proc_step(p, out@, s@, i as int);
                }
                let consumed = match p {
                    Processor::Operators => ops_step_exec(&mut out, s, i),
                    Processor::Commas(d) => {
                        let (d2, c) = commas_step_exec(d, &mut out, s, i);
                        p = Processor::Commas(d2);
                        c
                    },
                    Processor::Spaces => spaces_step_exec(&mut out, s, i),
                };
                if consumed == 0 {
                    out.push(ch);
                    i = i + 1;
                } else {
                    i = i + consumed;
                }
            },
        }
    }
    out
}

} // verus!
