//! Test assertions written as `FF-name(key=value,...) == EXPECTED` or
//! `FF-name == EXPECTED`.
use vstd::prelude::*;
use crate::evaluate::TestOutcome;
use crate::text::{
    chars_of, find, find_char, find_char_of, find_of, is_first_occ, lines, lines_of, occurs_at,
    slice_of, starts_with, starts_with_of, string_of, string_views, trim, trim_of, views,
};

verus! {

/// Scanning from index `i` with parenthesis depth `depth`, quote state `q`
/// and bracket depth `bd`: the index of the `)` that brings the depth back
/// to zero. Quotes toggle on every `"`; brackets count outside quotes;
/// parentheses count outside quotes and brackets.
pub open spec fn paren_scan(s: Seq<char>, i: int, depth: int, q: bool, bd: int) -> Option<int>
    decreases s.len() - i,
{
    if i < 0 || i >= s.len() {
        None
    } else {
        let ch = s[i];
        if ch == '"' {
            paren_scan(s, i + 1, depth, !q, bd)
        } else if ch == '[' && !q {
            paren_scan(s, i + 1, depth, q, bd + 1)
        } else if ch == ']' && !q {
            paren_scan(s, i + 1, depth, q, bd - 1)
        } else if ch == '(' && !q && bd == 0 {
            paren_scan(s, i + 1, depth + 1, q, bd)
        } else if ch == ')' && !q && bd == 0 {
            if depth - 1 == 0 {
                Some(i)
            } else {
                paren_scan(s, i + 1, depth - 1, q, bd)
            }
        } else {
            paren_scan(s, i + 1, depth, q, bd)
        }
    }
}

proof fn lemma_paren_scan_after(s: Seq<char>, i: int, depth: int, q: bool, bd: int)
    ensures
        paren_scan(s, i, depth, q, bd) matches Some(r) ==> i <= r < s.len(),
    decreases s.len() - i,
{
    if 0 <= i < s.len() {
        let ch = s[i];
        if ch == '"' {
            lemma_paren_scan_after(s, i + 1, depth, !q, bd);
        } else if ch == '[' && !q {
            lemma_paren_scan_after(s, i + 1, depth, q, bd + 1);
        } else if ch == ']' && !q {
            lemma_paren_scan_after(s, i + 1, depth, q, bd - 1);
        } else if ch == '(' && !q && bd == 0 {
            lemma_paren_scan_after(s, i + 1, depth + 1, q, bd);
        } else if ch == ')' && !q && bd == 0 {
            lemma_paren_scan_after(s, i + 1, depth - 1, q, bd);
        } else {
            lemma_paren_scan_after(s, i + 1, depth, q, bd);
        }
    }
}

/// The index of the `)` matching the `(` at `open_pos`, skipping brackets
/// and quoted text (see `paren_scan`).
pub fn find_matching_paren(s: &[char], open_pos: usize) -> (r: Option<usize>)
    ensures
        match r {
            Some(p) => paren_scan(s@, open_pos as int, 0, false, 0) == Some(p as int),
            None => paren_scan(s@, open_pos as int, 0, false, 0) is None,
        },
{
    let mut depth: i128 = 0;
    let mut in_quote = false;
    let mut bracket_depth: i128 = 0;
    let mut i = open_pos;
    while i < s.len()
        invariant
            open_pos <= i,
            -(i - open_pos) <= depth <= i - open_pos,
            -(i - open_pos) <= bracket_depth <= i - open_pos,
            paren_scan(s@, open_pos as int, 0, false, 0) == paren_scan(
                s@,
                i as int,
                depth as int,
                in_quote,
                bracket_depth as int,
            ),
        decreases s.len() - i,
    {
        let ch = s[i];
        if ch == '"' {
            in_quote = !in_quote;
        } else if ch == '[' && !in_quote {
            bracket_depth = bracket_depth + 1;
        } else if ch == ']' && !in_quote {
            bracket_depth = bracket_depth - 1;
        } else if ch == '(' && !in_quote && bracket_depth == 0 {
            depth = depth + 1;
        } else if ch == ')' && !in_quote && bracket_depth == 0 {
            depth = depth - 1;
            if depth == 0 {
                return Some(i);
            }
        }
        i = i + 1;
    }
    None
}

/// `str::split_once('=')` after trimming: the key and the value of one
/// context parameter.
pub open spec fn kv_pair(t: Seq<char>) -> Option<(Seq<char>, Seq<char>)> {
    let tt = trim(t);
    match find_char(tt, '=') {
        Some(e) => Some((tt.subrange(0, e), tt.subrange(e + 1, tt.len() as int))),
        None => None,
    }
}

/// The key/value pairs of a parameter list from index `i` on, where the
/// current parameter began at `start`; commas inside quotes or brackets do
/// not split, and parameters without `=` are dropped.
pub open spec fn params_from(
    s: Seq<char>,
    i: int,
    start: int,
    q: bool,
    bd: int,
    acc: Seq<(Seq<char>, Seq<char>)>,
) -> Seq<(Seq<char>, Seq<char>)>
    decreases s.len() - i,
{
    if i < 0 || i >= s.len() {
        if 0 <= start < s.len() {
            match kv_pair(s.subrange(start, s.len() as int)) {
                Some(p) => acc.push(p),
                None => acc,
            }
        } else {
            acc
        }
    } else {
        let ch = s[i];
        if ch == '"' {
            params_from(s, i + 1, start, !q, bd, acc)
        } else if ch == '[' && !q {
            params_from(s, i + 1, start, q, bd + 1, acc)
        } else if ch == ']' && !q {
            params_from(s, i + 1, start, q, bd - 1, acc)
        } else if ch == ',' && !q && bd == 0 {
            let acc2 = match kv_pair(s.subrange(start, i)) {
                Some(p) => acc.push(p),
                None => acc,
            };
            params_from(s, i + 1, i + 1, q, bd, acc2)
        } else {
            params_from(s, i + 1, start, q, bd, acc)
        }
    }
}

/// The key/value pairs of a context parameter list.
pub open spec fn context_params(s: Seq<char>) -> Seq<(Seq<char>, Seq<char>)> {
    params_from(s, 0, 0, false, 0, Seq::empty())
}

/// The views of a list of key/value pairs.
pub open spec fn pair_views(v: Seq<(String, String)>) -> Seq<(Seq<char>, Seq<char>)> {
    v.map_values(|p: (String, String)| (p.0@, p.1@))
}

/// One `key=value` parameter, trimmed and split at the first `=`.
pub fn parse_kv_pair(s: &[char]) -> (r: Option<(String, String)>)
    ensures
        match r {
            Some(p) => kv_pair(s@) == Some((p.0@, p.1@)),
            None => kv_pair(s@) is None,
        },
{
    let t = trim_of(s);
    match find_char_of(&t, '=') {
        Some(e) => {
            assert(is_first_occ(t@, seq!['='], e as int));
            assert(occurs_at(t@, seq!['='], e as int));
            assert(seq!['='].len() == 1);
            assert(e < t.len());
            Some((string_of(&slice_of(&t, 0, e)), string_of(&slice_of(&t, e + 1, t.len()))))
        },
        None => None,
    }
}

fn push_pair(acc: &mut Vec<(String, String)>, p: Option<(String, String)>)
    ensures
        pair_views(final(acc)@) == match p {
            Some(x) => pair_views(old(acc)@).push((x.0@, x.1@)),
            None => pair_views(old(acc)@),
        },
{
    if let Some(x) = p {
        let ghost before = acc@;
        let ghost xv = (x.0@, x.1@);
        acc.push(x);
        assert(pair_views(acc@) =~= pair_views(before).push(xv));
    }
}

/// Split context parameters on commas outside quotes and brackets into
/// key/value pairs (see `context_params`).
pub fn split_context_params(s: &[char]) -> (r: Vec<(String, String)>)
    ensures
        pair_views(r@) == context_params(s@),
{
    let mut pairs: Vec<(String, String)> = Vec::new();
    let mut bracket_depth: i128 = 0;
    let mut in_quote = false;
    let mut start: usize = 0;
    let mut i: usize = 0;
    assert(pair_views(pairs@) =~= Seq::<(Seq<char>, Seq<char>)>::empty());
    while i < s.len()
        invariant
            start <= i <= s.len(),
            -(i as int) <= bracket_depth <= i,
            context_params(s@) == params_from(
                s@,
                i as int,
                start as int,
                in_quote,
                bracket_depth as int,
                pair_views(pairs@),
            ),
        decreases s.len() - i,
    {
        let ch = s[i];
        if ch == '"' {
            in_quote = !in_quote;
        } else if ch == '[' && !in_quote {
            bracket_depth = bracket_depth + 1;
        } else if ch == ']' && !in_quote {
            bracket_depth = bracket_depth - 1;
        } else if ch == ',' && !in_quote && bracket_depth == 0 {
            let p = parse_kv_pair(&slice_of(s, start, i));
            push_pair(&mut pairs, p);
            start = i + 1;
        }
        i = i + 1;
    }
    if start < s.len() {
        let p = parse_kv_pair(&slice_of(s, start, s.len()));
        push_pair(&mut pairs, p);
    }
    pairs
}

/// A parsed test assertion: the flag name, the context pairs and the
/// expected value.
pub open spec fn test_line(line: Seq<char>) -> Option<
    (Seq<char>, Seq<(Seq<char>, Seq<char>)>, Seq<char>),
> {
    let l = trim(line);
    if l.len() == 0 {
        None
    } else {
        match find_char(l, '(') {
            Some(po) => match paren_scan(l, po, 0, false, 0) {
                None => None,
                Some(pc) => {
                    let rest = l.subrange(pc + 1, l.len() as int);
                    match find(rest, "=="@) {
                        None => None,
                        Some(eq) => Some(
                            (
                                l.subrange(0, po),
                                context_params(l.subrange(po + 1, pc)),
                                trim(rest.subrange(eq + 2, rest.len() as int)),
                            ),
                        ),
                    }
                },
            },
            None => match find(l, "=="@) {
                None => None,
                Some(eq) => Some(
                    (
                        trim(l.subrange(0, eq)),
                        Seq::empty(),
                        trim(l.subrange(eq + 2, l.len() as int)),
                    ),
                ),
            },
        }
    }
}

/// Parse a test line `FF-name(key=val,key=val) == EXPECTED`, or the form
/// without context `FF-name == EXPECTED` (see `test_line`).
pub fn parse_test_line(line: &str) -> (r: Option<(String, Vec<(String, String)>, String)>)
    ensures
        match r {
            Some(t) => test_line(line@) == Some((t.0@, pair_views(t.1@), t.2@)),
            None => test_line(line@) is None,
        },
{
    let l = trim_of(&chars_of(line));
    if l.len() == 0 {
        return None;
    }
    let eqeq = chars_of("==");
    proof {
        reveal_strlit("==");
    }
    assert(eqeq@.len() == 2);
    match find_char_of(&l, '(') {
        Some(po) => {
            let pc = match find_matching_paren(&l, po) {
                Some(p) => p,
                None => {
                    return None;
                },
            };
            proof {
                lemma_paren_scan_after(l@, po as int, 0, false, 0);
                assert(l@[po as int] == '(') by {
                    assert(occurs_at(l@, seq!['('], po as int));
                    assert(l@.subrange(po as int, po + 1)[0] == '(');
                }
                lemma_paren_scan_after(l@, po + 1, 1, false, 0);
            }
            let rest = slice_of(&l, pc + 1, l.len());
            match find_of(&rest, &eqeq) {
                None => None,
                Some(eq) => {
                    proof {
                        assert(occurs_at(rest@, eqeq@, eq as int));
                    }
                    let name = string_of(&slice_of(&l, 0, po));
                    let pairs = split_context_params(&slice_of(&l, po + 1, pc));
                    let expected = string_of(&trim_of(&slice_of(&rest, eq + 2, rest.len())));
                    Some((name, pairs, expected))
                },
            }
        },
        None => {
            match find_of(&l, &eqeq) {
                None => None,
                Some(eq) => {
                    proof {
                        assert(occurs_at(l@, eqeq@, eq as int));
                    }
                    let name = string_of(&trim_of(&slice_of(&l, 0, eq)));
                    let expected = string_of(&trim_of(&slice_of(&l, eq + 2, l.len())));
                    let pairs: Vec<(String, String)> = Vec::new();
                    assert(pair_views(pairs@) =~= Seq::<(Seq<char>, Seq<char>)>::empty());
                    Some((name, pairs, expected))
                },
            }
        },
    }
}

// ── Test files ─────────────────────────────────────────────────────

/// A trimmed line of a test file that holds an assertion: not blank and
/// not a `//` comment.
pub open spec fn is_assertion_line(t: Seq<char>) -> bool {
    t.len() > 0 && !starts_with(t, "//"@)
}

/// The assertion lines among `ls`, trimmed, in order.
pub open spec fn assertion_lines_of(ls: Seq<Seq<char>>) -> Seq<Seq<char>>
    decreases ls.len(),
{
    if ls.len() == 0 {
        Seq::empty()
    } else {
        let prev = assertion_lines_of(ls.drop_last());
        if is_assertion_line(trim(ls.last())) {
            prev.push(trim(ls.last()))
        } else {
            prev
        }
    }
}

/// The assertions of a test file: its lines, trimmed, without blank lines
/// and `//` comments.
pub fn assertion_lines(content: &str) -> (r: Vec<String>)
    ensures
        string_views(r@) == assertion_lines_of(lines(content@)),
{
    let ls = lines_of(&chars_of(content));
    let ghost lv = views(ls@);
    let slash = chars_of("//");
    let mut r: Vec<String> = Vec::new();
    let mut i: usize = 0;
    while i < ls.len()
        invariant
            i <= ls@.len(),
            lv == views(ls@),
            lv == lines(content@),
            slash@ == "//"@,
            string_views(r@) == assertion_lines_of(lv.subrange(0, i as int)),
        decreases ls@.len() - i,
    {
        let t = trim_of(&ls[i]);
        proof {
            let p = lv.subrange(0, i + 1);
            assert(p.drop_last() =~= lv.subrange(0, i as int));
            assert(p.last() == ls@[i as int]@);
        }
        if t.len() > 0 && !starts_with_of(&t, &slash) {
            let ghost old_r = string_views(r@);
            r.push(string_of(&t));
            assert(string_views(r@) =~= old_r.push(t@));
        }
        i = i + 1;
    }
    assert(lv.subrange(0, lv.len() as int) =~= lv);
    r
}

/// The counts of a test run.
pub struct TestTally {
    pub passed: u64,
    pub failed: u64,
    pub total: u64,
}

impl TestTally {
    /// Every counted test either passed or failed.
    pub open spec fn wf(&self) -> bool {
        self.passed + self.failed == self.total
    }

    /// No tests counted yet.
    pub fn new() -> (r: TestTally)
        ensures
            r.wf(),
            r.passed == 0 && r.failed == 0 && r.total == 0,
    {
        TestTally { passed: 0, failed: 0, total: 0 }
    }

    /// Count the outcome of one assertion: a pass, or a failure of any kind.
    pub fn record(&mut self, outcome: TestOutcome)
        requires
            old(self).wf(),
            old(self).total < u64::MAX,
        ensures
            final(self).wf(),
            final(self).total == old(self).total + 1,
            outcome == TestOutcome::Pass ==> final(self).passed == old(self).passed + 1
                && final(self).failed == old(self).failed,
            outcome != TestOutcome::Pass ==> final(self).failed == old(self).failed + 1
                && final(self).passed == old(self).passed,
    {
        self.total = self.total + 1;
        match outcome {
            TestOutcome::Pass => {
                self.passed = self.passed + 1;
            },
            _ => {
                self.failed = self.failed + 1;
            },
        }
    }

    /// The run succeeds when no test failed.
    pub fn succeeded(&self) -> (r: bool)
        ensures
            r == (self.failed == 0),
    {
        self.failed == 0
    }
}

} // verus!
