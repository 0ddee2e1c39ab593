//! Comments survive formatting: every comment line of the source comes back
//! among the formatted lines with the same text.
use vstd::prelude::*;
use crate::formatter::format::{
    drop_trailing_blank, fmt_from, fmt_step, formatted_lines, indent_end, spaces, strip_indent,
    FmtState,
};
use crate::text::{is_ws, lead_end, lines, starts_with, trail_start, trim, trim_end, trim_start};

verus! {

/// A trimmed line that opens a line comment or a block comment.
pub open spec fn is_comment_line(t: Seq<char>) -> bool {
    starts_with(t, "//"@) || starts_with(t, "/*"@)
}

proof fn lemma_comment_line(t: Seq<char>)
    requires
        is_comment_line(t),
    ensures
        t.len() >= 2,
        t[0] == '/',
        starts_with(t, "//"@) ==> !starts_with(t, "/*"@),
{
    reveal_strlit("//");
    reveal_strlit("/*");
    assert(t.subrange(0, 2)[0] == t[0]);
    assert(t.subrange(0, 2)[1] == t[1]);
}

/// Every character of `s` is white space.
pub open spec fn all_ws(s: Seq<char>) -> bool {
    forall|i: int| 0 <= i < s.len() ==> is_ws(#[trigger] s[i])
}

/// Some line of `out` trims to `t`.
pub open spec fn holds_line(out: Seq<Seq<char>>, t: Seq<char>) -> bool {
    exists|j: int| 0 <= j < out.len() && trim(#[trigger] out[j]) == t
}

proof fn lemma_lead_end_at(s: Seq<char>, i: int, k: int)
    requires
        0 <= i <= k <= s.len(),
        forall|m: int| i <= m < k ==> is_ws(#[trigger] s[m]),
        k == s.len() || !is_ws(s[k]),
    ensures
        lead_end(s, i) == k,
    decreases k - i,
{
    if i < k {
        lemma_lead_end_at(s, i + 1, k);
    }
}

proof fn lemma_trail_start_at(s: Seq<char>, j: int, k: int)
    requires
        0 <= k <= j <= s.len(),
        forall|m: int| k <= m < j ==> is_ws(#[trigger] s[m]),
        k == 0 || !is_ws(s[k - 1]),
    ensures
        trail_start(s, j) == k,
    decreases j - k,
{
    if k < j {
        lemma_trail_start_at(s, j - 1, k);
    }
}

proof fn lemma_lead_end_facts(s: Seq<char>, i: int)
    requires
        0 <= i <= s.len(),
    ensures
        i <= lead_end(s, i) <= s.len(),
        forall|m: int| i <= m < lead_end(s, i) ==> is_ws(#[trigger] s[m]),
        lead_end(s, i) == s.len() || !is_ws(s[lead_end(s, i)]),
    decreases s.len() - i,
{
    if i < s.len() && is_ws(s[i]) {
        lemma_lead_end_facts(s, i + 1);
    }
}

proof fn lemma_trail_start_facts(s: Seq<char>, j: int)
    requires
        0 <= j <= s.len(),
    ensures
        0 <= trail_start(s, j) <= j,
        forall|m: int| trail_start(s, j) <= m < j ==> is_ws(#[trigger] s[m]),
        trail_start(s, j) == 0 || !is_ws(s[trail_start(s, j) - 1]),
    decreases j,
{
    if 0 < j && is_ws(s[j - 1]) {
        lemma_trail_start_facts(s, j - 1);
    }
}

/// `trim` splits its argument into white space, the trimmed text, and white
/// space; the trimmed text is empty or starts and ends with other characters.
proof fn lemma_trim_split(s: Seq<char>)
    ensures
        exists|a: int, e: int|
            #![trigger s.subrange(a, e)]
            0 <= a <= e <= s.len() && trim(s) == s.subrange(a, e)
                && all_ws(s.subrange(0, a)) && all_ws(s.subrange(e, s.len() as int))
                && (a < e ==> !is_ws(s[a]) && !is_ws(s[e - 1])),
{
    let e = trail_start(s, s.len() as int);
    lemma_trail_start_facts(s, s.len() as int);
    let te = s.subrange(0, e);
    assert(trim_end(s) == te);
    let a = lead_end(te, 0);
    lemma_lead_end_facts(te, 0);
    assert(trim(s) =~= s.subrange(a, e));
    assert(all_ws(s.subrange(0, a))) by {
        assert forall|i: int| 0 <= i < a implies is_ws(#[trigger] s.subrange(0, a)[i]) by {
            assert(te[i] == s[i]);
        }
    }
    assert(all_ws(s.subrange(e, s.len() as int))) by {
        assert forall|i: int| 0 <= i < s.len() - e implies is_ws(
            #[trigger] s.subrange(e, s.len() as int)[i],
        ) by {
            assert(s.subrange(e, s.len() as int)[i] == s[e + i]);
        }
    }
    if a < e {
        assert(te[a] == s[a]);
    }
}

/// White space, then text that starts and ends with other characters, then
/// white space: `trim` gives the text.
proof fn lemma_trim_of_split(p: Seq<char>, m: Seq<char>, q: Seq<char>)
    requires
        all_ws(p),
        all_ws(q),
        m.len() > 0,
        !is_ws(m[0]),
        !is_ws(m.last()),
    ensures
        trim(p + m + q) == m,
{
    let x = p + m + q;
    let e: int = (p.len() + m.len()) as int;
    assert forall|i: int| e <= i < x.len() implies is_ws(#[trigger] x[i]) by {
        assert(x[i] == q[i - e]);
    }
    assert(x[e - 1] == m.last());
    lemma_trail_start_at(x, x.len() as int, e);
    let te = x.subrange(0, e);
    assert(trim_end(x) == te);
    assert forall|i: int| 0 <= i < p.len() implies is_ws(#[trigger] te[i]) by {
        assert(te[i] == p[i]);
    }
    assert(te[p.len() as int] == m[0]);
    lemma_lead_end_at(te, 0, p.len() as int);
    assert(trim(x) =~= m);
}

/// `indent_end` skips only spaces and stays within the line.
proof fn lemma_indent_end(s: Seq<char>, k: int, max: int)
    requires
        0 <= k <= s.len(),
    ensures
        k <= indent_end(s, k, max) <= s.len(),
        forall|i: int| k <= i < indent_end(s, k, max) ==> #[trigger] s[i] == ' ',
    decreases s.len() - k,
{
    if 0 <= k < max && k < s.len() && s[k] == ' ' {
        lemma_indent_end(s, k + 1, max);
    }
}

/// A comment line, indented by `n` spaces: its trimmed text is that of the line.
proof fn lemma_comment_output(line: Seq<char>, n: int)
    requires
        n >= 0,
        is_comment_line(trim(line)),
    ensures
        trim(spaces(n) + trim(line)) == trim(line),
{
    let t = trim(line);
    lemma_trim_split(line);
    lemma_comment_line(t);
    assert forall|i: int| 0 <= i < spaces(n).len() implies is_ws(#[trigger] spaces(n)[i]) by {}
    let (a, e) = choose|a: int, e: int|
        #![trigger line.subrange(a, e)]
        0 <= a <= e <= line.len() && trim(line) == line.subrange(a, e)
            && all_ws(line.subrange(0, a)) && all_ws(line.subrange(e, line.len() as int))
            && (a < e ==> !is_ws(line[a]) && !is_ws(line[e - 1]));
    assert(t.last() == line[e - 1]);
    lemma_trim_of_split(spaces(n), t, seq![]);
    assert(spaces(n) + t + seq![] =~= spaces(n) + t);
}

/// A comment line inside a block comment keeps its text when at most `m`
/// leading spaces are taken off and `n` spaces are put in front.
proof fn lemma_block_comment_output(line: Seq<char>, n: int, m: int)
    requires
        n >= 0,
        is_comment_line(trim(line)),
    ensures
        strip_indent(line, m).len() > 0,
        trim(spaces(n) + strip_indent(line, m)) == trim(line),
{
    let t = trim(line);
    lemma_trim_split(line);
    let (a, e) = choose|a: int, e: int|
        #![trigger line.subrange(a, e)]
        0 <= a <= e <= line.len() && trim(line) == line.subrange(a, e)
            && all_ws(line.subrange(0, a)) && all_ws(line.subrange(e, line.len() as int))
            && (a < e ==> !is_ws(line[a]) && !is_ws(line[e - 1]));
    lemma_comment_line(t);
    assert(line[a] == t[0]);
    let ie = indent_end(line, 0, m);
    lemma_indent_end(line, 0, m);
    if ie > a {
        assert(line[a] == ' ');
    }
    assert(ie <= a);
    let rest = strip_indent(line, m);
    assert(rest == line.subrange(ie, line.len() as int));
    let p = spaces(n) + line.subrange(ie, a);
    let q = line.subrange(e, line.len() as int);
    assert forall|i: int| 0 <= i < p.len() implies is_ws(#[trigger] p[i]) by {
        if i >= n {
            assert(p[i] == line.subrange(0, a)[ie + i - n]);
        }
    }
    assert(spaces(n) + rest =~= p + t + q);
    assert(t.last() == line[e - 1]);
    lemma_trim_of_split(p, t, q);
}

proof fn lemma_trim_empty()
    ensures
        trim(seq![]) == Seq::<char>::empty(),
{
    let s: Seq<char> = seq![];
    assert(trail_start(s, 0) == 0);
    assert(trim_end(s) =~= s);
    assert(lead_end(s, 0) == 0);
    assert(trim_start(s) =~= s);
}

/// One formatting step keeps every non-empty line it was given.
proof fn lemma_step_keeps(st: FmtState, line: Seq<char>, t: Seq<char>)
    requires
        t.len() > 0,
        holds_line(st.out, t),
    ensures
        holds_line(fmt_step(st, line).out, t),
{
    lemma_trim_empty();
    let j = choose|j: int| 0 <= j < st.out.len() && trim(#[trigger] st.out[j]) == t;
    let out2 = fmt_step(st, line).out;
    if st.out.len() > 0 && st.out.last().len() == 0 {
        assert(st.out.last() =~= seq![]);
    }
    assert(out2[j] == st.out[j]);
}

/// A comment line comes out of its formatting step as the last line.
proof fn lemma_step_adds(st: FmtState, line: Seq<char>)
    requires
        is_comment_line(trim(line)),
    ensures
        holds_line(fmt_step(st, line).out, trim(line)),
{
    let t = trim(line);
    let out2 = fmt_step(st, line).out;
    if st.in_block_comment {
        lemma_block_comment_output(line, (st.depth * 4) as int, (st.depth * 4) as int);
        assert(trim(out2.last()) == t);
    } else {
        lemma_comment_line(t);
        lemma_comment_output(line, (st.depth * 4) as int);
        assert(trim(out2.last()) == t);
    }
    assert(out2.len() > 0);
    assert(out2[out2.len() - 1] == out2.last());
}

/// The rest of the pass keeps every non-empty line already given out.
proof fn lemma_from_keeps(ls: Seq<Seq<char>>, k: int, st: FmtState, t: Seq<char>)
    requires
        t.len() > 0,
        holds_line(st.out, t),
    ensures
        holds_line(fmt_from(ls, k, st).out, t),
    decreases ls.len() - k,
{
    if 0 <= k < ls.len() {
        lemma_step_keeps(st, ls[k], t);
        lemma_from_keeps(ls, k + 1, fmt_step(st, ls[k]), t);
    }
}

/// A comment line at index `m` of the source is among the lines that the
/// pass from `k` on gives out.
proof fn lemma_from_adds(ls: Seq<Seq<char>>, k: int, st: FmtState, m: int)
    requires
        0 <= k <= m < ls.len(),
        is_comment_line(trim(ls[m])),
    ensures
        holds_line(fmt_from(ls, k, st).out, trim(ls[m])),
    decreases m - k,
{
    lemma_comment_line(trim(ls[m]));
    if k == m {
        lemma_step_adds(st, ls[m]);
        lemma_from_keeps(ls, k + 1, fmt_step(st, ls[k]), trim(ls[m]));
    } else {
        lemma_from_adds(ls, k + 1, fmt_step(st, ls[k]), m);
    }
}

/// Dropping trailing empty lines keeps every non-empty line.
proof fn lemma_drop_trailing_keeps(ls: Seq<Seq<char>>, t: Seq<char>)
    requires
        t.len() > 0,
        holds_line(ls, t),
    ensures
        holds_line(drop_trailing_blank(ls), t),
    decreases ls.len(),
{
    if ls.len() > 0 && ls.last().len() == 0 {
        lemma_trim_empty();
        let j = choose|j: int| 0 <= j < ls.len() && trim(#[trigger] ls[j]) == t;
        assert(ls.last() =~= seq![]);
        assert(j < ls.len() - 1);
        assert(ls.drop_last()[j] == ls[j]);
        lemma_drop_trailing_keeps(ls.drop_last(), t);
    }
}

/// Formatting keeps every comment: each source line whose trimmed text opens
/// a `//` or `/*` comment comes back as a formatted line with the same
/// trimmed text.
pub proof fn law_comments_preserved(input: Seq<char>, k: int)
    requires
        0 <= k < lines(input).len(),
        is_comment_line(trim(lines(input)[k])),
    ensures
        holds_line(formatted_lines(input), trim(lines(input)[k])),
{
    let ls = lines(input);
    lemma_comment_line(trim(ls[k]));
    lemma_from_adds(ls, 0, crate::formatter::format::fmt_init(), k);
    lemma_drop_trailing_keeps(fmt_from(ls, 0, crate::formatter::format::fmt_init()).out, trim(ls[k]));
}

} // verus!
