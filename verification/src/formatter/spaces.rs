//! What space collapsing does to a line: it removes spaces and nothing
//! else, and leaves a line without two spaces in a row as it is.
use vstd::prelude::*;
use crate::formatter::normalize::spaces_collapsed;
use crate::formatter::walk::{
    json_next, lemma_spaces_end, opens_regex, proc_step, spaces_end, walk, Processor, QuoteState,
};
use crate::text::occurs_at;

verus! {

/// `s` with every space taken out.
pub open spec fn without_spaces(s: Seq<char>) -> Seq<char>
    decreases s.len(),
{
    if s.len() == 0 {
        Seq::empty()
    } else {
        without_spaces(s.drop_last()) + if s.last() == ' ' {
            Seq::<char>::empty()
        } else {
            seq![s.last()]
        }
    }
}

/// No two spaces stand next to each other in `s`.
pub open spec fn single_spaced(s: Seq<char>) -> bool {
    forall|k: int| 0 <= k < s.len() - 1 ==> !(#[trigger] s[k] == ' ' && s[k + 1] == ' ')
}

proof fn lemma_without_spaces_concat(a: Seq<char>, b: Seq<char>)
    ensures
        without_spaces(a + b) == without_spaces(a) + without_spaces(b),
    decreases b.len(),
{
    if b.len() == 0 {
        assert(a + b =~= a);
        assert(without_spaces(b) =~= Seq::<char>::empty());
        assert(without_spaces(a) + without_spaces(b) =~= without_spaces(a));
    } else {
        assert((a + b).drop_last() =~= a + b.drop_last());
        assert((a + b).last() == b.last());
        lemma_without_spaces_concat(a, b.drop_last());
        let tail = if b.last() == ' ' {
            Seq::<char>::empty()
        } else {
            seq![b.last()]
        };
        assert(without_spaces(a) + without_spaces(b.drop_last()) + tail =~= without_spaces(a) + (
        without_spaces(b.drop_last()) + tail));
    }
}

proof fn lemma_without_spaces_one(c: char)
    ensures
        without_spaces(seq![c]) == if c == ' ' {
            Seq::<char>::empty()
        } else {
            seq![c]
        },
{
    assert(seq![c].drop_last() =~= Seq::<char>::empty());
    assert(without_spaces(Seq::<char>::empty()) =~= Seq::<char>::empty());
    if c == ' ' {
        assert(Seq::<char>::empty() + Seq::<char>::empty() =~= Seq::<char>::empty());
    } else {
        assert(Seq::<char>::empty() + seq![c] =~= seq![c]);
    }
}

/// Splitting the rest of the input at `i`: its first character, then the rest.
proof fn lemma_rest_split(s: Seq<char>, i: int, out: Seq<char>)
    requires
        0 <= i < s.len(),
    ensures
        without_spaces(out.push(s[i])) + without_spaces(s.subrange(i + 1, s.len() as int))
            == without_spaces(out) + without_spaces(s.subrange(i, s.len() as int)),
{
    lemma_without_spaces_concat(out, seq![s[i]]);
    assert(out.push(s[i]) =~= out + seq![s[i]]);
    assert(s.subrange(i, s.len() as int) =~= seq![s[i]] + s.subrange(i + 1, s.len() as int));
    lemma_without_spaces_concat(seq![s[i]], s.subrange(i + 1, s.len() as int));
    assert(without_spaces(out) + without_spaces(seq![s[i]]) + without_spaces(
        s.subrange(i + 1, s.len() as int),
    ) =~= without_spaces(out) + (without_spaces(seq![s[i]]) + without_spaces(
        s.subrange(i + 1, s.len() as int),
    )));
}

/// The collapsing walk from index `i` keeps every character but spaces,
/// and gives out at most as many characters as it reads.
proof fn lemma_walk_only_spaces(s: Seq<char>, i: int, q: QuoteState, out: Seq<char>)
    requires
        0 <= i <= s.len(),
    ensures
        without_spaces(walk(s, i, q, Processor::Spaces, out)) == without_spaces(out)
            + without_spaces(s.subrange(i, s.len() as int)),
        walk(s, i, q, Processor::Spaces, out).len() <= out.len() + s.len() - i,
    decreases s.len() - i,
{
    let p = Processor::Spaces;
    if i >= s.len() {
        assert(s.subrange(i, s.len() as int) =~= Seq::<char>::empty());
        assert(without_spaces(out) + without_spaces(Seq::<char>::empty()) =~= without_spaces(out));
        return;
    }
    let ch = s[i];
    let normal = q == QuoteState::Normal;
    let json = normal && ch != '\'' && ch != '"' && !crate::formatter::walk::opens_regex(s, i)
        && occurs_at(s, seq!['j', 's', 'o', 'n', '('], i);
    if json {
        let j = spaces_end(s, i + 5);
        lemma_spaces_end(s, i + 5);
        let o = out + s.subrange(i, j);
        lemma_without_spaces_concat(out, s.subrange(i, j));
        assert(s.subrange(i, s.len() as int) =~= s.subrange(i, j) + s.subrange(j, s.len() as int));
        lemma_without_spaces_concat(s.subrange(i, j), s.subrange(j, s.len() as int));
        if j < s.len() && s[j] == '{' {
            lemma_walk_only_spaces(s, j + 1, QuoteState::InJson(1), o.push('{'));
            lemma_rest_split(s, j, o);
        } else {
            lemma_walk_only_spaces(s, j, QuoteState::Normal, o);
        }
        assert(without_spaces(out) + without_spaces(s.subrange(i, j)) + without_spaces(
            s.subrange(j, s.len() as int),
        ) =~= without_spaces(out) + (without_spaces(s.subrange(i, j)) + without_spaces(
            s.subrange(j, s.len() as int),
        )));
    } else if normal && ch != '\'' && ch != '"' && !crate::formatter::walk::opens_regex(s, i) {
        let (p2, o2, c) = proc_step(p, out, s, i);
        if c == 0 {
            lemma_walk_only_spaces(s, i + 1, QuoteState::Normal, o2.push(ch));
            lemma_rest_split(s, i, out);
        } else {
            lemma_walk_only_spaces(s, i + 1, QuoteState::Normal, o2);
            lemma_without_spaces_concat(out, seq![' ']);
            lemma_without_spaces_one(' ');
            assert(out.push(' ') =~= out + seq![' ']);
            assert(without_spaces(out) + Seq::<char>::empty() =~= without_spaces(out));
            lemma_rest_split(s, i, out);
        }
    } else {
        let q2 = match q {
            QuoteState::InSingle => if ch == '\'' { QuoteState::Normal } else { q },
            QuoteState::InDouble => if ch == '"' { QuoteState::Normal } else { q },
            QuoteState::InRegex => if ch == '/' { QuoteState::Normal } else { q },
            QuoteState::InJson(d) => crate::formatter::walk::json_next(d, ch),
            QuoteState::Normal => if ch == '\'' {
                QuoteState::InSingle
            } else if ch == '"' {
                QuoteState::InDouble
            } else {
                QuoteState::InRegex
            },
        };
        lemma_walk_only_spaces(s, i + 1, q2, out.push(ch));
        lemma_rest_split(s, i, out);
    }
}

/// Collapsing spaces removes spaces and nothing else, and never makes a
/// line longer.
pub proof fn law_collapse_removes_only_spaces(s: Seq<char>)
    ensures
        without_spaces(spaces_collapsed(s)) == without_spaces(s),
        spaces_collapsed(s).len() <= s.len(),
{
    lemma_walk_only_spaces(s, 0, QuoteState::Normal, seq![]);
    assert(s.subrange(0, s.len() as int) =~= s);
    assert(without_spaces(Seq::<char>::empty()) + without_spaces(s) =~= without_spaces(s));
}

/// On a single-spaced input the walk from `i` copies the rest unchanged.
proof fn lemma_walk_single_spaced(s: Seq<char>, i: int, q: QuoteState)
    requires
        0 <= i <= s.len(),
        single_spaced(s),
    ensures
        walk(s, i, q, Processor::Spaces, s.subrange(0, i)) == s,
    decreases s.len() - i,
{
    let out = s.subrange(0, i);
    if i >= s.len() {
        assert(out =~= s);
        return;
    }
    let ch = s[i];
    assert(out.push(ch) =~= s.subrange(0, i + 1));
    let normal = q == QuoteState::Normal;
    let json = normal && ch != '\'' && ch != '"' && !crate::formatter::walk::opens_regex(s, i)
        && occurs_at(s, seq!['j', 's', 'o', 'n', '('], i);
    if json {
        let j = spaces_end(s, i + 5);
        lemma_spaces_end(s, i + 5);
        let o = out + s.subrange(i, j);
        assert(o =~= s.subrange(0, j));
        if j < s.len() && s[j] == '{' {
            assert(o.push('{') =~= s.subrange(0, j + 1));
            lemma_walk_single_spaced(s, j + 1, QuoteState::InJson(1));
        } else {
            lemma_walk_single_spaced(s, j, QuoteState::Normal);
        }
    } else if normal && ch != '\'' && ch != '"' && !crate::formatter::walk::opens_regex(s, i) {
        if ch == ' ' {
            if i > 0 {
                assert(out.last() == s[i - 1]);
                assert(!(s[i - 1] == ' ' && s[i] == ' '));
            }
        }
        lemma_walk_single_spaced(s, i + 1, QuoteState::Normal);
    } else {
        let q2 = match q {
            QuoteState::InSingle => if ch == '\'' { QuoteState::Normal } else { q },
            QuoteState::InDouble => if ch == '"' { QuoteState::Normal } else { q },
            QuoteState::InRegex => if ch == '/' { QuoteState::Normal } else { q },
            QuoteState::InJson(d) => crate::formatter::walk::json_next(d, ch),
            QuoteState::Normal => if ch == '\'' {
                QuoteState::InSingle
            } else if ch == '"' {
                QuoteState::InDouble
            } else {
                QuoteState::InRegex
            },
        };
        lemma_walk_single_spaced(s, i + 1, q2);
    }
}

/// A line with no two spaces in a row comes out of space collapsing
/// unchanged.
pub proof fn law_collapse_keeps_single_spaced(s: Seq<char>)
    requires
        single_spaced(s),
    ensures
        spaces_collapsed(s) == s,
{
    assert(s.subrange(0, 0) =~= Seq::<char>::empty());
    lemma_walk_single_spaced(s, 0, QuoteState::Normal);
}

/// `s` holds no quote, no `/` and no `json(`: nothing that the walk copies
/// verbatim, so every space in it is open to collapsing.
pub open spec fn plain_text(s: Seq<char>) -> bool {
    &&& forall|k: int| 0 <= k < s.len() ==> #[trigger] s[k] != '\'' && s[k] != '"' && s[k] != '/'
    &&& forall|k: int| 0 <= k < s.len() ==> !#[trigger] json_at(s, k)
}

/// `json(` starts at index `k` of `s`.
pub open spec fn json_at(s: Seq<char>, k: int) -> bool {
    occurs_at(s, seq!['j', 's', 'o', 'n', '('], k)
}

/// On plain text the walk from `i` keeps a single-spaced output
/// single-spaced.
proof fn lemma_walk_plain_single(s: Seq<char>, i: int, out: Seq<char>)
    requires
        0 <= i <= s.len(),
        plain_text(s),
        single_spaced(out),
    ensures
        single_spaced(walk(s, i, QuoteState::Normal, Processor::Spaces, out)),
    decreases s.len() - i,
{
    if i < s.len() {
        let ch = s[i];
        assert(ch != '\'' && ch != '"' && ch != '/');
        assert(!json_at(s, i));
        assert(!crate::formatter::walk::opens_regex(s, i));
        if ch == ' ' {
            if out.len() > 0 && out.last() == ' ' {
                lemma_walk_plain_single(s, i + 1, out);
            } else {
                let o = out.push(' ');
                assert forall|k: int| 0 <= k < o.len() - 1 implies !(#[trigger] o[k] == ' ' && o[k
                    + 1] == ' ') by {
                    if k + 1 < out.len() {
                        assert(o[k] == out[k] && o[k + 1] == out[k + 1]);
                    } else {
                        assert(o[k] == out.last());
                    }
                }
                lemma_walk_plain_single(s, i + 1, o);
            }
        } else {
            let o = out.push(ch);
            assert forall|k: int| 0 <= k < o.len() - 1 implies !(#[trigger] o[k] == ' ' && o[k + 1]
                == ' ') by {
                if k + 1 < out.len() {
                    assert(o[k] == out[k] && o[k + 1] == out[k + 1]);
                } else {
                    assert(o[k + 1] == ch);
                }
            }
            lemma_walk_plain_single(s, i + 1, o);
        }
    }
}

/// On plain text (see `plain_text`) space collapsing leaves no two spaces
/// in a row, so collapsing again changes nothing.
pub proof fn law_collapse_idempotent_on_plain_text(s: Seq<char>)
    requires
        plain_text(s),
    ensures
        single_spaced(spaces_collapsed(s)),
        spaces_collapsed(spaces_collapsed(s)) == spaces_collapsed(s),
{
    lemma_walk_plain_single(s, 0, seq![]);
    law_collapse_keeps_single_spaced(spaces_collapsed(s));
}

// ── Collapsing twice ───────────────────────────────────────────────

/// The collapsing walk.
pub open spec fn cw(s: Seq<char>, i: int, q: QuoteState, out: Seq<char>) -> Seq<char> {
    walk(s, i, q, Processor::Spaces, out)
}

/// One step of the collapsing walk at index `i`: the next index, quote
/// state and output.
pub open spec fn step_of(s: Seq<char>, i: int, q: QuoteState, out: Seq<char>) -> (
    int,
    QuoteState,
    Seq<char>,
) {
    let ch = s[i];
    match q {
        QuoteState::InSingle => (i + 1, if ch == '\'' { QuoteState::Normal } else { q }, out.push(ch)),
        QuoteState::InDouble => (i + 1, if ch == '"' { QuoteState::Normal } else { q }, out.push(ch)),
        QuoteState::InRegex => (i + 1, if ch == '/' { QuoteState::Normal } else { q }, out.push(ch)),
        QuoteState::InJson(d) => (i + 1, json_next(d, ch), out.push(ch)),
        QuoteState::Normal => {
            if ch == '\'' {
                (i + 1, QuoteState::InSingle, out.push(ch))
            } else if ch == '"' {
                (i + 1, QuoteState::InDouble, out.push(ch))
            } else if opens_regex(s, i) {
                (i + 1, QuoteState::InRegex, out.push(ch))
            } else if json_at(s, i) {
                let j = spaces_end(s, i + 5);
                let o = out + s.subrange(i, j);
                if j < s.len() && s[j] == '{' {
                    (j + 1, QuoteState::InJson(1), o.push('{'))
                } else {
                    (j, QuoteState::Normal, o)
                }
            } else if ch == ' ' {
                (i + 1, QuoteState::Normal, if out.len() > 0 && out.last() == ' ' {
                    out
                } else {
                    out.push(' ')
                })
            } else {
                (i + 1, QuoteState::Normal, out.push(ch))
            }
        },
    }
}

/// The walk is its step followed by the walk from where the step ends;
/// the step moves forward and only adds to the output.
proof fn lemma_step(s: Seq<char>, i: int, q: QuoteState, out: Seq<char>)
    requires
        0 <= i < s.len(),
    ensures
        cw(s, i, q, out) == cw(s, step_of(s, i, q, out).0, step_of(s, i, q, out).1, step_of(s, i, q, out).2),
        i < step_of(s, i, q, out).0 <= s.len(),
        step_of(s, i, q, out).2.len() >= out.len(),
        step_of(s, i, q, out).2.subrange(0, out.len() as int) == out,
{
    let st = step_of(s, i, q, out);
    if q == QuoteState::Normal && s[i] != '\'' && s[i] != '"' && !opens_regex(s, i) && json_at(s, i) {
        lemma_spaces_end(s, i + 5);
    }
    assert(st.2.subrange(0, out.len() as int) =~= out);
}

/// The walk only adds to its output.
proof fn lemma_prefix(s: Seq<char>, i: int, q: QuoteState, out: Seq<char>)
    requires
        0 <= i <= s.len(),
    ensures
        cw(s, i, q, out).len() >= out.len(),
        cw(s, i, q, out).subrange(0, out.len() as int) == out,
    decreases s.len() - i,
{
    if i < s.len() {
        lemma_step(s, i, q, out);
        let st = step_of(s, i, q, out);
        lemma_prefix(s, st.0, st.1, st.2);
        let r = cw(s, i, q, out);
        assert(r.subrange(0, out.len() as int) =~= r.subrange(0, st.2.len() as int).subrange(
            0,
            out.len() as int,
        ));
    } else {
        assert(out.subrange(0, out.len() as int) =~= out);
    }
}

/// The next character the walk gives out is `s[j]`, unless it drops a
/// space.
proof fn lemma_next(s: Seq<char>, j: int, q: QuoteState, out: Seq<char>)
    requires
        0 <= j < s.len(),
        q != QuoteState::Normal || s[j] != ' ' || out.len() == 0 || out.last() != ' ',
    ensures
        cw(s, j, q, out).len() > out.len(),
        cw(s, j, q, out)[out.len() as int] == s[j],
{
    lemma_step(s, j, q, out);
    let st = step_of(s, j, q, out);
    if q == QuoteState::Normal && s[j] != '\'' && s[j] != '"' && !opens_regex(s, j) && json_at(s, j) {
        lemma_spaces_end(s, j + 5);
    }
    assert(st.2.len() > out.len() && st.2[out.len() as int] == s[j]);
    lemma_prefix(s, st.0, st.1, st.2);
    let r = cw(s, j, q, out);
    assert(r.subrange(0, st.2.len() as int)[out.len() as int] == r[out.len() as int]);
}

/// A character that opens nothing is copied, and the walk goes on.
proof fn lemma_plain_advance(s: Seq<char>, m: int, o: Seq<char>)
    requires
        0 <= m < s.len(),
        s[m] != ' ' && s[m] != '\'' && s[m] != '"' && s[m] != '/' && s[m] != 'j',
    ensures
        cw(s, m, QuoteState::Normal, o) == cw(s, m + 1, QuoteState::Normal, o.push(s[m])),
{
    lemma_step(s, m, QuoteState::Normal, o);
}

proof fn lemma_spaces_end_stop(s: Seq<char>, a: int)
    requires
        0 <= a <= s.len(),
    ensures
        spaces_end(s, a) < s.len() ==> s[spaces_end(s, a)] != ' ',
    decreases s.len() - a,
{
    if a < s.len() && s[a] == ' ' {
        lemma_spaces_end_stop(s, a + 1);
    }
}

proof fn lemma_spaces_end_at(x: Seq<char>, a: int, b: int)
    requires
        0 <= a <= b <= x.len(),
        forall|m: int| a <= m < b ==> x[m] == ' ',
        b == x.len() || x[b] != ' ',
    ensures
        spaces_end(x, a) == b,
    decreases b - a,
{
    if a < b {
        lemma_spaces_end_at(x, a + 1, b);
    }
}

/// Where the walk copies a `j` that does not open `json(`, its output does
/// not hold `json(` there either.
proof fn lemma_no_json(s: Seq<char>, i: int, out: Seq<char>)
    requires
        0 <= i < s.len(),
        s[i] == 'j',
        !json_at(s, i),
    ensures
        !json_at(cw(s, i, QuoteState::Normal, out), out.len() as int),
{
    let k = out.len() as int;
    let r = cw(s, i, QuoteState::Normal, out);
    let jn = seq!['j', 's', 'o', 'n', '('];
    if json_at(r, k) {
        assert(r.subrange(k, k + 5) == jn);
        assert(r[k + 1] == 's' && r[k + 2] == 'o' && r[k + 3] == 'n' && r[k + 4] == '(') by {
            assert(r.subrange(k, k + 5)[1] == r[k + 1]);
            assert(r.subrange(k, k + 5)[2] == r[k + 2]);
            assert(r.subrange(k, k + 5)[3] == r[k + 3]);
            assert(r.subrange(k, k + 5)[4] == r[k + 4]);
        }
        lemma_step(s, i, QuoteState::Normal, out);
        let o1 = out.push('j');
        assert(r == cw(s, i + 1, QuoteState::Normal, o1));
        if i + 1 >= s.len() {
            assert(r == o1);
            assert(false);
        }
        lemma_next(s, i + 1, QuoteState::Normal, o1);
        assert(s[i + 1] == 's');
        lemma_plain_advance(s, i + 1, o1);
        let o2 = o1.push('s');
        if i + 2 >= s.len() {
            assert(r == o2);
            assert(false);
        }
        lemma_next(s, i + 2, QuoteState::Normal, o2);
        assert(s[i + 2] == 'o');
        lemma_plain_advance(s, i + 2, o2);
        let o3 = o2.push('o');
        if i + 3 >= s.len() {
            assert(r == o3);
            assert(false);
        }
        lemma_next(s, i + 3, QuoteState::Normal, o3);
        assert(s[i + 3] == 'n');
        lemma_plain_advance(s, i + 3, o3);
        let o4 = o3.push('n');
        if i + 4 >= s.len() {
            assert(r == o4);
            assert(false);
        }
        lemma_next(s, i + 4, QuoteState::Normal, o4);
        assert(s[i + 4] == '(');
        assert(s.subrange(i, i + 5) =~= jn);
        assert(false);
    }
}

/// The previous character the walk saw, as `opens_regex` reads it.
pub open spec fn walk_inv(s: Seq<char>, i: int, out: Seq<char>) -> bool {
    ||| i == 0 && out.len() == 0
    ||| i > 0 && out.len() > 0 && out.last() == s[i - 1]
}

/// The output of the collapsing walk from `i` is walked again from where
/// `out` ends to itself: collapsing it changes nothing.
proof fn lemma_stable(s: Seq<char>, i: int, q: QuoteState, out: Seq<char>)
    requires
        0 <= i <= s.len(),
        walk_inv(s, i, out),
    ensures
        cw(cw(s, i, q, out), out.len() as int, q, out) == cw(s, i, q, out),
    decreases s.len() - i,
{
    let r = cw(s, i, q, out);
    let k = out.len() as int;
    if i >= s.len() {
        assert(r == out);
        return;
    }
    lemma_step(s, i, q, out);
    let st = step_of(s, i, q, out);
    let ch = s[i];
    lemma_prefix(s, st.0, st.1, st.2);
    assert(r == cw(s, st.0, st.1, st.2));
    // the continuation holds the step's output
    assert forall|m: int| 0 <= m < st.2.len() implies #[trigger] r[m] == st.2[m] by {
        assert(r.subrange(0, st.2.len() as int)[m] == r[m]);
    }
    if st.2 == out {
        // a dropped space
        assert(st.1 == q);
        assert(walk_inv(s, i + 1, out));
        lemma_stable(s, st.0, st.1, st.2);
        return;
    }
    // the step as it would run on r at k
    let prev_same = (k > 0 ==> r[k - 1] == (if i > 0 { s[i - 1] } else { ' ' })) && (k == 0
        <==> i == 0);
    assert(prev_same) by {
        if k > 0 {
            assert(r[k - 1] == out.last());
        }
    }
    if q == QuoteState::Normal && ch != '\'' && ch != '"' {
        if opens_regex(s, i) {
            lemma_next(s, i + 1, QuoteState::InRegex, st.2);
            assert(r[k + 1] == s[i + 1]);
            assert(opens_regex(r, k));
        } else if ch == '/' {
            if i + 1 >= s.len() {
                assert(r == st.2);
            } else if s[i + 1] == '/' || s[i + 1] == '*' {
                lemma_next(s, i + 1, QuoteState::Normal, st.2);
            }
            assert(!opens_regex(r, k));
        } else {
            assert(!opens_regex(r, k));
        }
        if !opens_regex(s, i) {
            if json_at(s, i) {
                let j = spaces_end(s, i + 5);
                lemma_spaces_end(s, i + 5);
                lemma_spaces_end_stop(s, i + 5);
                let big_k = k + (j - i);
                assert(r.subrange(k, k + 5) =~= s.subrange(i, i + 5)) by {
                    assert forall|m: int| 0 <= m < 5 implies #[trigger] r.subrange(k, k + 5)[m] == s.subrange(
                        i,
                        i + 5,
                    )[m] by {
                        assert(r[k + m] == st.2[k + m]);
                    }
                }
                assert(json_at(r, k));
                if j < s.len() && s[j] == '{' {
                    assert(r[big_k] == st.2[big_k]);
                } else if j < s.len() {
                    lemma_next(s, j, QuoteState::Normal, st.2);
                } else {
                    assert(r == st.2);
                }
                assert forall|m: int| k + 5 <= m < big_k implies #[trigger] r[m] == ' ' by {
                    assert(r[m] == st.2[m]);
                }
                lemma_spaces_end_at(r, k + 5, big_k);
                assert(out + r.subrange(k, big_k) =~= out + s.subrange(i, j)) by {
                    assert forall|m: int| 0 <= m < big_k - k implies #[trigger] r.subrange(k, big_k)[m]
                        == s.subrange(i, j)[m] by {
                        assert(r[k + m] == st.2[k + m]);
                    }
                }
            } else if ch == 'j' {
                lemma_no_json(s, i, out);
            } else {
                assert(!json_at(r, k));
            }
        }
    }
    assert(r[k] == ch);
    let rt = step_of(r, k, q, out);
    assert(rt.2 =~= st.2 && rt.1 == st.1 && rt.0 == st.2.len());
    lemma_step(r, k, q, out);
    assert(walk_inv(s, st.0, st.2));
    lemma_stable(s, st.0, st.1, st.2);
}

/// Collapsing spaces a second time changes nothing.
pub proof fn law_collapse_idempotent(s: Seq<char>)
    ensures
        spaces_collapsed(spaces_collapsed(s)) == spaces_collapsed(s),
{
    lemma_stable(s, 0, QuoteState::Normal, seq![]);
}

} // verus!
