//! Searching source code for flag references: the search pattern, which
//! files are skipped as test files, and which defined flags are unused.
use vstd::prelude::*;
use crate::text::{
    chars_of, concat2, concat3, contains, contains_of, contains_str, ends_with, ends_with_of,
    starts_with, starts_with_of, string_views,
};

verus! {

/// A character that `regex::escape` escapes.
pub open spec fn is_regex_meta(c: char) -> bool {
    c == '\\' || c == '.' || c == '+' || c == '*' || c == '?' || c == '(' || c == ')' || c == '|'
        || c == '[' || c == ']' || c == '{' || c == '}' || c == '^' || c == '$' || c == '#' || c
        == '&' || c == '-' || c == '~'
}

/// What `regex::escape` returns for `t`: `t` with a backslash put before
/// every meta character (see `is_regex_meta`).
pub open spec fn regex_escaped(t: Seq<char>) -> Seq<char>
    decreases t.len(),
{
    if t.len() == 0 {
        Seq::empty()
    } else {
        regex_escaped(t.drop_last()) + if is_regex_meta(t.last()) {
            seq!['\\', t.last()]
        } else {
            seq![t.last()]
        }
    }
}

/// `regex::escape`: `t` with each meta character preceded by a backslash
/// (`regex_escaped`).
#[verifier::external_body]
fn escape_regex(t: &str) -> (r: String)
    ensures
        r@ == regex_escaped(t@),
{
    regex::escape(t)
}

/// The pattern that finds flag references: for a search term that is a
/// flag name (`FF-…` or `FF_…`), that name at a word start; for another
/// term, any flag name containing it; without a term, any flag name.
pub open spec fn search_regex(term: Option<Seq<char>>) -> Seq<char> {
    match term {
        Some(t) => if starts_with(t, "FF-"@) || starts_with(t, "FF_"@) {
            "\\b"@ + regex_escaped(t)
        } else {
            "\\bFF[-_][a-zA-Z0-9_-]*"@ + regex_escaped(t) + "[a-zA-Z0-9_-]*"@
        },
        None => "\\bFF[-_][a-zA-Z0-9_-]+"@,
    }
}

/// The regular expression `ff find` searches for (see `search_regex`).
pub fn search_pattern(search: Option<&str>) -> (r: String)
    ensures
        r@ == search_regex(crate::text::opt_str(search)),
{
    match search {
        Some(term) => {
            let t = chars_of(term);
            let escaped = escape_regex(term);
            if starts_with_of(&t, &chars_of("FF-")) || starts_with_of(&t, &chars_of("FF_")) {
                concat2("\\b", escaped.as_str())
            } else {
                concat3("\\bFF[-_][a-zA-Z0-9_-]*", escaped.as_str(), "[a-zA-Z0-9_-]*")
            }
        },
        None => crate::text::string_of(&chars_of("\\bFF[-_][a-zA-Z0-9_-]+")),
    }
}

/// A file name that marks a test file: `*.tests`, `*.test.*` or `*.spec.*`.
pub open spec fn is_test_file_name(name: Seq<char>) -> bool {
    ends_with(name, ".tests"@) || contains(name, ".test."@) || contains(name, ".spec."@)
}

/// Whether a file name marks a test file, which the unused-flag search
/// skips (see `is_test_file_name`).
pub fn is_test_file(name: &str) -> (b: bool)
    ensures
        b == is_test_file_name(name@),
{
    let n = chars_of(name);
    ends_with_of(&n, &chars_of(".tests")) || contains_of(&n, &chars_of(".test.")) || contains_of(
        &n,
        &chars_of(".spec."),
    )
}

/// The defined flags, in order, that are not among the references found.
pub open spec fn unused_in(defined: Seq<Seq<char>>, seen: Seq<Seq<char>>) -> Seq<Seq<char>>
    decreases defined.len(),
{
    if defined.len() == 0 {
        Seq::empty()
    } else {
        unused_in(defined.drop_last(), seen) + if seen.contains(defined.last()) {
            Seq::empty()
        } else {
            seq![defined.last()]
        }
    }
}

/// The defined flags that no source file references (see `unused_in`).
pub fn unused_flags(defined: &Vec<String>, seen: &Vec<String>) -> (r: Vec<String>)
    ensures
        string_views(r@) == unused_in(string_views(defined@), string_views(seen@)),
{
    let mut r: Vec<String> = Vec::new();
    let mut i: usize = 0;
    assert(string_views(r@) =~= Seq::<Seq<char>>::empty());
    while i < defined.len()
        invariant
            i <= defined@.len(),
            string_views(r@) == unused_in(
                string_views(defined@.subrange(0, i as int)),
                string_views(seen@),
            ),
        decreases defined@.len() - i,
    {
        proof {
            assert(string_views(defined@.subrange(0, i + 1)).drop_last() =~= string_views(
                defined@.subrange(0, i as int),
            ));
        }
        if !contains_str(seen, defined[i].as_str()) {
            let ghost before = string_views(r@);
            r.push(defined[i].clone());
            assert(string_views(r@) =~= before.push(defined@[i as int]@));
        }
        i = i + 1;
    }
    assert(string_views(defined@.subrange(0, i as int)) =~= string_views(defined@));
    r
}

// ── Occurrence counts ──────────────────────────────────────────────

/// How often `x` occurs in `s`.
pub open spec fn count_in(s: Seq<Seq<char>>, x: Seq<char>) -> nat
    decreases s.len(),
{
    if s.len() == 0 {
        0
    } else {
        count_in(s.drop_last(), x) + if s.last() == x { 1nat } else { 0nat }
    }
}

/// `a` sorts before `b`: the lexicographic order of characters, which is
/// the order of `str`.
pub open spec fn lex_lt(a: Seq<char>, b: Seq<char>) -> bool
    decreases a.len(),
{
    if a.len() == 0 {
        b.len() > 0
    } else if b.len() == 0 {
        false
    } else if a[0] != b[0] {
        a[0] < b[0]
    } else {
        lex_lt(a.drop_first(), b.drop_first())
    }
}

proof fn lemma_lex_irrefl(a: Seq<char>)
    ensures
        !lex_lt(a, a),
    decreases a.len(),
{
    if a.len() > 0 {
        lemma_lex_irrefl(a.drop_first());
    }
}

proof fn lemma_lex_trans(a: Seq<char>, b: Seq<char>, c: Seq<char>)
    requires
        lex_lt(a, b),
        lex_lt(b, c),
    ensures
        lex_lt(a, c),
    decreases a.len(),
{
    if a.len() > 0 && b.len() > 0 && c.len() > 0 && a[0] == b[0] && b[0] == c[0] {
        lemma_lex_trans(a.drop_first(), b.drop_first(), c.drop_first());
    }
}

proof fn lemma_lex_total(a: Seq<char>, b: Seq<char>)
    requires
        a != b,
    ensures
        lex_lt(a, b) || lex_lt(b, a),
    decreases a.len(),
{
    if a.len() > 0 && b.len() > 0 && a[0] == b[0] {
        if a.drop_first() == b.drop_first() {
            assert(a =~= seq![a[0]] + a.drop_first());
            assert(b =~= seq![b[0]] + b.drop_first());
            assert(a == b);
        } else {
            lemma_lex_total(a.drop_first(), b.drop_first());
        }
    } else if a.len() == 0 && b.len() == 0 {
        assert(a =~= b);
    }
}

/// `p` is listed before `q`: more occurrences first, then by name.
pub open spec fn ranks_before(p: (Seq<char>, nat), q: (Seq<char>, nat)) -> bool {
    p.1 > q.1 || (p.1 == q.1 && lex_lt(p.0, q.0))
}

/// The view of a list of counts.
pub open spec fn counts_view(v: Seq<(String, usize)>) -> Seq<(Seq<char>, nat)> {
    v.map_values(|p: (String, usize)| (p.0@, p.1 as nat))
}

/// Whether `a` sorts before `b` (see `lex_lt`).
fn lex_less(a: &[char], b: &[char]) -> (r: bool)
    ensures
        r == lex_lt(a@, b@),
{
    let mut i: usize = 0;
    assert(a@.subrange(0, a@.len() as int) =~= a@);
    assert(b@.subrange(0, b@.len() as int) =~= b@);
    while i < a.len() && i < b.len() && a[i] == b[i]
        invariant
            i <= a.len(),
            i <= b.len(),
            lex_lt(a@, b@) == lex_lt(a@.subrange(i as int, a@.len() as int), b@.subrange(
                i as int,
                b@.len() as int,
            )),
        decreases a.len() - i,
    {
        proof {
            let sa = a@.subrange(i as int, a@.len() as int);
            let sb = b@.subrange(i as int, b@.len() as int);
            assert(sa.drop_first() =~= a@.subrange(i + 1, a@.len() as int));
            assert(sb.drop_first() =~= b@.subrange(i + 1, b@.len() as int));
        }
        i = i + 1;
    }
    let sa = Ghost(a@.subrange(i as int, a@.len() as int));
    let sb = Ghost(b@.subrange(i as int, b@.len() as int));
    if i == a.len() {
        i < b.len()
    } else if i == b.len() {
        false
    } else {
        assert(sa@[0] == a@[i as int] && sb@[0] == b@[i as int]);
        a[i] < b[i]
    }
}

/// Whether the entry `p` is listed before `q`.
fn ranks_first(p: &(String, usize), q: &(String, usize)) -> (r: bool)
    ensures
        r == ranks_before((p.0@, p.1 as nat), (q.0@, q.1 as nat)),
{
    p.1 > q.1 || (p.1 == q.1 && lex_less(&chars_of(p.0.as_str()), &chars_of(q.0.as_str())))
}

/// Each flag name found, with how often it was found, listed by count (most
/// first) and then by name: the report of `ff find --count`.
pub fn rank_counts(matches: &Vec<String>) -> (r: Vec<(String, usize)>)
    ensures
        forall|i: int, j: int|
            0 <= i < j < r@.len() ==> ranks_before(counts_view(r@)[i], counts_view(r@)[j]),
        forall|i: int|
            0 <= i < r@.len() ==> (#[trigger] counts_view(r@)[i]).1 == count_in(
                string_views(matches@),
                counts_view(r@)[i].0,
            ) && counts_view(r@)[i].1 > 0,
        forall|x: Seq<char>|
            count_in(string_views(matches@), x) > 0 ==> exists|i: int|
                0 <= i < r@.len() && (#[trigger] counts_view(r@)[i]).0 == x,
{
    let ghost ms = string_views(matches@);
    // tally, in order of first occurrence
    let mut tally: Vec<(String, usize)> = Vec::new();
    let mut k: usize = 0;
    while k < matches.len()
        invariant
            k <= matches@.len(),
            ms == string_views(matches@),
            forall|i: int, j: int|
                0 <= i < j < tally@.len() ==> counts_view(tally@)[i].0 != counts_view(tally@)[j].0,
            forall|i: int|
                0 <= i < tally@.len() ==> (#[trigger] counts_view(tally@)[i]).1 == count_in(
                    ms.subrange(0, k as int),
                    counts_view(tally@)[i].0,
                ) && counts_view(tally@)[i].1 > 0,
            forall|x: Seq<char>|
                count_in(ms.subrange(0, k as int), x) > 0 ==> exists|i: int|
                    0 <= i < tally@.len() && (#[trigger] counts_view(tally@)[i]).0 == x,
            tally@.len() <= k,
        decreases matches@.len() - k,
    {
        let ghost pre = ms.subrange(0, k as int);
        let ghost now = ms.subrange(0, k + 1);
        proof {
            assert(now.drop_last() =~= pre);
            assert(now.last() == matches@[k as int]@);
            assert forall|x: Seq<char>| #[trigger] count_in(now, x) == count_in(pre, x) + if x
                == matches@[k as int]@ {
                1nat
            } else {
                0nat
            } by {}
        }
        let name = matches[k].as_str();
        let mut t: usize = 0;
        let mut found = false;
        while !found && t < tally.len()
            invariant
                t <= tally@.len(),
                found ==> t < tally@.len() && tally@[t as int].0@ == name@,
                forall|m: int| 0 <= m < t ==> tally@[m].0@ != name@,
            decreases tally@.len() - t, if found { 0int } else { 1int },
        {
            if crate::text::str_eq(tally[t].0.as_str(), name) {
                found = true;
            } else {
                t = t + 1;
            }
        }
        let ghost before = counts_view(tally@);
        if found {
            let c = tally[t].1;
            proof {
                assert(before[t as int].1 == count_in(pre, name@));
                assert(count_in(pre, name@) <= pre.len()) by {
                    lemma_count_le(pre, name@);
                }
            }
            let entry = (tally[t].0.clone(), c + 1);
            tally.set(t, entry);
            proof {
                assert(counts_view(tally@) =~= before.update(t as int, (name@, (c + 1) as nat)));
                assert forall|x: Seq<char>| count_in(now, x) > 0 implies exists|i: int|
                    0 <= i < tally@.len() && (#[trigger] counts_view(tally@)[i]).0 == x by {
                    if x == name@ {
                        assert(counts_view(tally@)[t as int].0 == x);
                    } else {
                        assert(count_in(pre, x) > 0);
                        let i = choose|i: int| 0 <= i < before.len() && before[i].0 == x;
                        assert(counts_view(tally@)[i].0 == x);
                    }
                }
            }
        } else {
            tally.push((matches[k].clone(), 1));
            proof {
                assert(counts_view(tally@) =~= before.push((name@, 1nat)));
                assert(count_in(pre, name@) == 0) by {
                    if count_in(pre, name@) > 0 {
                        let i = choose|i: int| 0 <= i < before.len() && before[i].0 == name@;
                        assert(tally@[i].0@ == name@);
                    }
                }
                assert forall|x: Seq<char>| count_in(now, x) > 0 implies exists|i: int|
                    0 <= i < tally@.len() && (#[trigger] counts_view(tally@)[i]).0 == x by {
                    if x == name@ {
                        assert(counts_view(tally@)[before.len() as int].0 == x);
                    } else {
                        let i = choose|i: int| 0 <= i < before.len() && before[i].0 == x;
                        assert(counts_view(tally@)[i].0 == x);
                    }
                }
            }
        }
        k = k + 1;
    }
    assert(ms.subrange(0, k as int) =~= ms);
    // insertion sort by rank
    let mut out: Vec<(String, usize)> = Vec::new();
    let mut n: usize = 0;
    while n < tally.len()
        invariant
            n <= tally@.len(),
            forall|i: int, j: int|
                0 <= i < j < tally@.len() ==> counts_view(tally@)[i].0 != counts_view(tally@)[j].0,
            forall|i: int, j: int|
                0 <= i < j < out@.len() ==> ranks_before(counts_view(out@)[i], counts_view(out@)[j]),
            forall|y: (Seq<char>, nat)|
                counts_view(out@).contains(y) <==> counts_view(tally@).subrange(0, n as int).contains(y),
            out@.len() == n,
        decreases tally@.len() - n,
    {
        let item = (tally[n].0.clone(), tally[n].1);
        let ghost iv = (item.0@, item.1 as nat);
        let mut p: usize = 0;
        while p < out.len() && ranks_first(&out[p], &item)
            invariant
                p <= out@.len(),
                iv == (item.0@, item.1 as nat),
                forall|m: int| 0 <= m < p ==> ranks_before(counts_view(out@)[m], iv),
            decreases out@.len() - p,
        {
            assert(ranks_before(counts_view(out@)[p as int], iv));
            p = p + 1;
        }
        let ghost before = counts_view(out@);
        proof {
            // the new item differs from every listed one
            assert forall|m: int| 0 <= m < before.len() implies before[m] != iv by {
                assert(before.contains(before[m]));
                let pre = counts_view(tally@).subrange(0, n as int);
                assert(pre.contains(before[m]));
                let j = choose|j: int| 0 <= j < pre.len() && pre[j] == before[m];
                assert(counts_view(tally@)[j] == before[m]);
                assert(counts_view(tally@)[n as int] == iv);
            }
            if p < before.len() {
                assert(!ranks_before(before[p as int], iv));
                assert(before[p as int] != iv);
                if before[p as int].1 == iv.1 {
                    assert(before[p as int].0 != iv.0);
                    lemma_lex_total(before[p as int].0, iv.0);
                }
                assert(ranks_before(iv, before[p as int]));
            }
        }
        out.insert(p, item);
        proof {
            let after = counts_view(out@);
            assert(after =~= before.insert(p as int, iv));
            assert forall|i: int, j: int| 0 <= i < j < after.len() implies ranks_before(after[i], after[j]) by {
                lemma_ranks_sorted_insert(before, iv, p as int, i, j);
            }
            let pre = counts_view(tally@).subrange(0, n as int);
            assert(counts_view(tally@).subrange(0, n + 1) =~= pre.push(iv));
            assert forall|y: (Seq<char>, nat)| after.contains(y) <==> pre.push(iv).contains(y) by {
                if after.contains(y) {
                    let i = choose|i: int| 0 <= i < after.len() && after[i] == y;
                    if i < p {
                        assert(before[i] == y);
                        assert(before.contains(y));
                        let j = choose|j: int| 0 <= j < pre.len() && pre[j] == y;
                        assert(pre.push(iv)[j] == y);
                    } else if i == p {
                        assert(pre.push(iv)[pre.len() as int] == y);
                    } else {
                        assert(before[i - 1] == y);
                        assert(before.contains(y));
                        let j = choose|j: int| 0 <= j < pre.len() && pre[j] == y;
                        assert(pre.push(iv)[j] == y);
                    }
                }
                if pre.push(iv).contains(y) {
                    let j = choose|j: int| 0 <= j < pre.len() + 1 && pre.push(iv)[j] == y;
                    if j == pre.len() {
                        assert(after[p as int] == y);
                    } else {
                        assert(pre[j] == y);
                        assert(pre.contains(y));
                        assert(before.contains(y));
                        let i = choose|i: int| 0 <= i < before.len() && before[i] == y;
                        if i < p {
                            assert(after[i] == y);
                        } else {
                            assert(after[i + 1] == y);
                        }
                    }
                }
            }
        }
        n = n + 1;
    }
    proof {
        assert(counts_view(tally@).subrange(0, n as int) =~= counts_view(tally@));
        let tv = counts_view(tally@);
        let ov = counts_view(out@);
        assert forall|i: int| 0 <= i < out@.len() implies (#[trigger] counts_view(out@)[i]).1 == count_in(
            ms,
            counts_view(out@)[i].0,
        ) && counts_view(out@)[i].1 > 0 by {
            assert(ov.contains(ov[i]));
            assert(tv.contains(ov[i]));
            let j = choose|j: int| 0 <= j < tv.len() && tv[j] == ov[i];
            assert(tv[j].1 == count_in(ms, tv[j].0));
        }
        assert forall|x: Seq<char>| count_in(ms, x) > 0 implies exists|i: int|
            0 <= i < out@.len() && (#[trigger] counts_view(out@)[i]).0 == x by {
            let j = choose|j: int| 0 <= j < tally@.len() && (#[trigger] counts_view(tally@)[j]).0 == x;
            assert(tv.contains(tv[j]));
            assert(ov.contains(tv[j]));
            let i = choose|i: int| 0 <= i < ov.len() && ov[i] == tv[j];
            assert(counts_view(out@)[i].0 == x);
        }
    }
    out
}

proof fn lemma_count_le(s: Seq<Seq<char>>, x: Seq<char>)
    ensures
        count_in(s, x) <= s.len(),
    decreases s.len(),
{
    if s.len() > 0 {
        lemma_count_le(s.drop_last(), x);
    }
}

proof fn lemma_ranks_trans(p: (Seq<char>, nat), q: (Seq<char>, nat), r: (Seq<char>, nat))
    requires
        ranks_before(p, q),
        ranks_before(q, r),
    ensures
        ranks_before(p, r),
{
    if p.1 == q.1 && q.1 == r.1 {
        lemma_lex_trans(p.0, q.0, r.0);
    }
}

proof fn lemma_ranks_sorted_insert(
    s: Seq<(Seq<char>, nat)>,
    x: (Seq<char>, nat),
    p: int,
    i: int,
    j: int,
)
    requires
        0 <= p <= s.len(),
        forall|a: int, b: int| 0 <= a < b < s.len() ==> ranks_before(s[a], s[b]),
        forall|m: int| 0 <= m < p ==> ranks_before(s[m], x),
        p < s.len() ==> ranks_before(x, s[p]),
        0 <= i < j < s.len() + 1,
    ensures
        ranks_before(s.insert(p, x)[i], s.insert(p, x)[j]),
{
    let t = s.insert(p, x);
    if i < p && j < p {
        assert(t[i] == s[i] && t[j] == s[j]);
    } else if i < p && j == p {
        assert(t[i] == s[i] && t[j] == x);
    } else if i < p && j > p {
        assert(t[i] == s[i] && t[j] == s[j - 1]);
    } else if i == p {
        assert(t[i] == x && t[j] == s[j - 1]);
        if j - 1 > p {
            lemma_ranks_trans(x, s[p], s[j - 1]);
        }
    } else {
        assert(t[i] == s[i - 1] && t[j] == s[j - 1]);
    }
}


// ── Matching source text ───────────────────────────────────────────

/// What `regex::Regex::new(pattern)` followed by `find_iter(text)` gives:
/// the matched texts, in order; `None` when the pattern does not compile.
pub uninterp spec fn regex_find_all(pattern: Seq<char>, text: Seq<char>) -> Option<Seq<Seq<char>>>;

/// The view of an optional list of strings.
pub open spec fn opt_strings_view(o: Option<Vec<String>>) -> Option<Seq<Seq<char>>> {
    match o {
        Some(v) => Some(string_views(v@)),
        None => None,
    }
}

/// `regex::Regex::new` and `Regex::find_iter`: the texts of the matches of
/// `pattern` in `text`, named `regex_find_all(pattern, text)`.
#[verifier::external_body]
fn find_all(pattern: &str, text: &str) -> (r: Option<Vec<String>>)
    ensures
        opt_strings_view(r) == regex_find_all(pattern@, text@),
{
    match regex::Regex::new(pattern) {
        Ok(re) => Some(re.find_iter(text).map(|m| m.as_str().to_string()).collect()),
        Err(_) => None,
    }
}

/// The matches of `pattern` in each of `lines`, one line after another;
/// `None` when the pattern does not compile.
pub open spec fn lines_matches(pattern: Seq<char>, lines: Seq<Seq<char>>) -> Option<Seq<Seq<char>>>
    decreases lines.len(),
{
    if lines.len() == 0 {
        Some(Seq::empty())
    } else {
        match (lines_matches(pattern, lines.drop_last()), regex_find_all(pattern, lines.last())) {
            (Some(a), Some(b)) => Some(a + b),
            _ => None,
        }
    }
}

/// The matches in every file (each a list of lines), one file after another.
pub open spec fn files_matches(pattern: Seq<char>, files: Seq<Seq<Seq<char>>>) -> Option<
    Seq<Seq<char>>,
>
    decreases files.len(),
{
    if files.len() == 0 {
        Some(Seq::empty())
    } else {
        match (files_matches(pattern, files.drop_last()), lines_matches(pattern, files.last())) {
            (Some(a), Some(b)) => Some(a + b),
            _ => None,
        }
    }
}

/// The views of a list of files given as lists of lines.
pub open spec fn files_view(files: Seq<Vec<String>>) -> Seq<Seq<Seq<char>>> {
    files.map_values(|f: Vec<String>| string_views(f@))
}

/// Append every string of `b` to `a`.
fn append_strings(a: &mut Vec<String>, b: Vec<String>)
    ensures
        string_views(final(a)@) == string_views(old(a)@) + string_views(b@),
{
    let ghost start = string_views(a@);
    let mut i: usize = 0;
    while i < b.len()
        invariant
            i <= b@.len(),
            string_views(a@) == start + string_views(b@).subrange(0, i as int),
        decreases b@.len() - i,
    {
        let ghost before = string_views(a@);
        a.push(b[i].clone());
        assert(string_views(a@) =~= before.push(b@[i as int]@));
        assert(string_views(b@).subrange(0, i + 1) =~= string_views(b@).subrange(0, i as int).push(
            b@[i as int]@,
        ));
        i = i + 1;
    }
    assert(string_views(b@).subrange(0, i as int) =~= string_views(b@));
}

/// The matches of `pattern` in `lines`, one line after another (see
/// `lines_matches`).
pub fn line_matches(pattern: &str, lines: &Vec<String>) -> (r: Option<Vec<String>>)
    ensures
        opt_strings_view(r) == lines_matches(pattern@, string_views(lines@)),
{
    let ghost lv = string_views(lines@);
    let mut out: Vec<String> = Vec::new();
    let mut i: usize = 0;
    assert(lv.subrange(0, 0) =~= Seq::<Seq<char>>::empty());
    assert(string_views(out@) =~= Seq::<Seq<char>>::empty());
    while i < lines.len()
        invariant
            i <= lines@.len(),
            lv == string_views(lines@),
            lines_matches(pattern@, lv.subrange(0, i as int)) == Some(string_views(out@)),
        decreases lines@.len() - i,
    {
        proof {
            assert(lv.subrange(0, i + 1).drop_last() =~= lv.subrange(0, i as int));
            assert(lv.subrange(0, i + 1).last() == lines@[i as int]@);
        }
        match find_all(pattern, lines[i].as_str()) {
            Some(m) => {
                append_strings(&mut out, m);
            },
            None => {
                proof {
                    lemma_lines_matches_none(pattern@, lv, i as int + 1);
                }
                return None;
            },
        }
        i = i + 1;
    }
    assert(lv.subrange(0, i as int) =~= lv);
    Some(out)
}

/// Once a prefix of the lines has no matches (an invalid pattern), neither
/// has any longer prefix.
proof fn lemma_lines_matches_none(pattern: Seq<char>, lv: Seq<Seq<char>>, k: int)
    requires
        0 <= k <= lv.len(),
        lines_matches(pattern, lv.subrange(0, k)) is None,
    ensures
        lines_matches(pattern, lv) is None,
    decreases lv.len() - k,
{
    if k < lv.len() {
        assert(lv.subrange(0, k + 1).drop_last() =~= lv.subrange(0, k));
        lemma_lines_matches_none(pattern, lv, k + 1);
    } else {
        assert(lv.subrange(0, k) =~= lv);
    }
}

proof fn lemma_files_matches_none(pattern: Seq<char>, fv: Seq<Seq<Seq<char>>>, k: int)
    requires
        0 <= k <= fv.len(),
        files_matches(pattern, fv.subrange(0, k)) is None,
    ensures
        files_matches(pattern, fv) is None,
    decreases fv.len() - k,
{
    if k < fv.len() {
        assert(fv.subrange(0, k + 1).drop_last() =~= fv.subrange(0, k));
        lemma_files_matches_none(pattern, fv, k + 1);
    } else {
        assert(fv.subrange(0, k) =~= fv);
    }
}

/// `r` lists each name found in `ms` once, with how often it was found,
/// most found first and then by name (the clauses of `rank_counts`).
pub open spec fn ranked(r: Seq<(Seq<char>, nat)>, ms: Seq<Seq<char>>) -> bool {
    &&& forall|i: int, j: int| 0 <= i < j < r.len() ==> ranks_before(r[i], r[j])
    &&& forall|i: int|
        0 <= i < r.len() ==> (#[trigger] r[i]).1 == count_in(ms, r[i].0) && r[i].1 > 0
    &&& forall|x: Seq<char>|
        count_in(ms, x) > 0 ==> exists|i: int| 0 <= i < r.len() && (#[trigger] r[i]).0 == x
}

/// `ff find --count`: the flag references in every file (each given as
/// its lines), ranked by `rank_counts`, with the number of references
/// found; `None` when the search pattern does not compile.
pub fn count_references(search: Option<&str>, files: &Vec<Vec<String>>) -> (r: Option<
    (Vec<(String, usize)>, usize),
>)
    ensures
        match r {
            Some((counts, total)) => exists|ms: Seq<Seq<char>>|
                {
                    &&& files_matches(search_regex(crate::text::opt_str(search)), files_view(files@))
                        == Some(ms)
                    &&& ranked(counts_view(counts@), ms)
                    &&& total == ms.len()
                },
            None => files_matches(search_regex(crate::text::opt_str(search)), files_view(files@))
                is None,
        },
{
    let pattern = search_pattern(search);
    let ghost fv = files_view(files@);
    let mut all: Vec<String> = Vec::new();
    let mut k: usize = 0;
    assert(fv.subrange(0, 0) =~= Seq::<Seq<Seq<char>>>::empty());
    assert(string_views(all@) =~= Seq::<Seq<char>>::empty());
    while k < files.len()
        invariant
            k <= files@.len(),
            fv == files_view(files@),
            pattern@ == search_regex(crate::text::opt_str(search)),
            files_matches(pattern@, fv.subrange(0, k as int)) == Some(string_views(all@)),
        decreases files@.len() - k,
    {
        proof {
            assert(fv.subrange(0, k + 1).drop_last() =~= fv.subrange(0, k as int));
            assert(fv.subrange(0, k + 1).last() == string_views(files@[k as int]@));
        }
        match line_matches(pattern.as_str(), &files[k]) {
            Some(m) => {
                append_strings(&mut all, m);
            },
            None => {
                proof {
                    lemma_files_matches_none(pattern@, fv, k as int + 1);
                }
                return None;
            },
        }
        k = k + 1;
    }
    assert(fv.subrange(0, k as int) =~= fv);
    let counts = rank_counts(&all);
    let total = all.len();
    proof {
        assert(ranked(counts_view(counts@), string_views(all@)));
    }
    Some((counts, total))
}

/// Whether the lines of a file hold a match of `pattern`.
pub open spec fn file_hits(pattern: Seq<char>, lines: Seq<Seq<char>>) -> bool {
    lines_matches(pattern, lines) matches Some(m) && m.len() > 0
}

/// The views of files given as name and lines.
pub open spec fn named_files_view(files: Seq<(String, Vec<String>)>) -> Seq<
    (Seq<char>, Seq<Seq<char>>),
> {
    files.map_values(|f: (String, Vec<String>)| (f.0@, string_views(f.1@)))
}

/// Some file's lines give no matches (the pattern does not compile).
pub open spec fn some_file_fails(pattern: Seq<char>, files: Seq<(Seq<char>, Seq<Seq<char>>)>) -> bool {
    exists|k: int| 0 <= k < files.len() && lines_matches(pattern, (#[trigger] files[k]).1) is None
}

/// `ff find --files-only`: the names of the files with a flag reference,
/// each once and in sorted order; `None` when the search pattern does not
/// compile.
pub fn matching_files(search: Option<&str>, files: &Vec<(String, Vec<String>)>) -> (r: Option<
    Vec<String>,
>)
    ensures
        match r {
            Some(names) => {
                let fv = named_files_view(files@);
                let pat = search_regex(crate::text::opt_str(search));
                &&& !some_file_fails(pat, fv)
                &&& forall|i: int, j: int|
                    0 <= i < j < names@.len() ==> lex_lt(names@[i]@, names@[j]@)
                &&& forall|x: Seq<char>|
                    string_views(names@).contains(x) <==> exists|k: int|
                        0 <= k < fv.len() && (#[trigger] fv[k]).0 == x && file_hits(pat, fv[k].1)
            },
            None => some_file_fails(
                search_regex(crate::text::opt_str(search)),
                named_files_view(files@),
            ),
        },
{
    let pattern = search_pattern(search);
    let ghost pat = pattern@;
    let ghost fv = named_files_view(files@);
    let mut names: Vec<String> = Vec::new();
    let mut k: usize = 0;
    while k < files.len()
        invariant
            k <= files@.len(),
            fv == named_files_view(files@),
            pat == pattern@,
            pat == search_regex(crate::text::opt_str(search)),
            forall|m: int| 0 <= m < k ==> lines_matches(pat, (#[trigger] fv[m]).1) is Some,
            forall|i: int, j: int| 0 <= i < j < names@.len() ==> lex_lt(names@[i]@, names@[j]@),
            forall|x: Seq<char>|
                string_views(names@).contains(x) <==> exists|m: int|
                    0 <= m < k && (#[trigger] fv[m]).0 == x && file_hits(pat, fv[m].1),
        decreases files@.len() - k,
    {
        assert(fv[k as int] == (files@[k as int].0@, string_views(files@[k as int].1@)));
        let m = match line_matches(pattern.as_str(), &files[k].1) {
            Some(m) => m,
            None => {
                return None;
            },
        };
        let ghost before = string_views(names@);
        if m.len() > 0 {
            insert_sorted(&mut names, files[k].0.as_str());
        }
        proof {
            assert forall|x: Seq<char>|
                string_views(names@).contains(x) <==> exists|mm: int|
                    0 <= mm < k + 1 && (#[trigger] fv[mm]).0 == x && file_hits(pat, fv[mm].1) by {
                if exists|mm: int| 0 <= mm < k + 1 && (#[trigger] fv[mm]).0 == x && file_hits(pat, fv[mm].1) {
                    let mm = choose|mm: int| 0 <= mm < k + 1 && (#[trigger] fv[mm]).0 == x && file_hits(pat, fv[mm].1);
                    if mm < k {
                        assert(before.contains(x));
                    }
                }
                if string_views(names@).contains(x) && !before.contains(x) {
                    assert(x == files@[k as int].0@);
                    assert(fv[k as int].0 == x);
                }
            }
        }
        k = k + 1;
    }
    Some(names)
}

/// Insert `x` into a sorted list of distinct names, unless it is there.
fn insert_sorted(names: &mut Vec<String>, x: &str)
    requires
        forall|i: int, j: int|
            0 <= i < j < old(names)@.len() ==> lex_lt(old(names)@[i]@, old(names)@[j]@),
    ensures
        forall|i: int, j: int|
            0 <= i < j < final(names)@.len() ==> lex_lt(final(names)@[i]@, final(names)@[j]@),
        forall|y: Seq<char>|
            string_views(final(names)@).contains(y) <==> (string_views(old(names)@).contains(y) || y
                == x@),
{
    let xc = chars_of(x);
    let mut p: usize = 0;
    while p < names.len() && lex_less(&chars_of(names[p].as_str()), &xc)
        invariant
            p <= names@.len(),
            xc@ == x@,
            forall|m: int| 0 <= m < p ==> lex_lt(#[trigger] names@[m]@, x@),
        decreases names@.len() - p,
    {
        p = p + 1;
    }
    let ghost old_v = string_views(names@);
    if p < names.len() && crate::text::str_eq(names[p].as_str(), x) {
        assert(old_v[p as int] == x@);
        return;
    }
    proof {
        if p < names@.len() {
            assert(!lex_lt(names@[p as int]@, x@));
            assert(names@[p as int]@ != x@);
            lemma_lex_total(names@[p as int]@, x@);
        }
    }
    let ghost old_n = names@;
    names.insert(p, crate::text::string_of(&xc));
    proof {
        let nv = string_views(names@);
        assert(nv =~= old_v.insert(p as int, x@));
        assert forall|i: int, j: int| 0 <= i < j < names@.len() implies lex_lt(
            names@[i]@,
            names@[j]@,
        ) by {
            assert(names@[i]@ == nv[i] && names@[j]@ == nv[j]);
            if i < p && j > p {
                assert(lex_lt(old_v[i], x@));
                if j - 1 > p {
                    assert(lex_lt(old_v[p as int], old_v[j - 1]));
                    lemma_lex_trans(x@, old_v[p as int], old_v[j - 1]);
                }
                lemma_lex_trans(old_v[i], x@, old_v[j - 1]);
            } else if i == p && j - 1 > p {
                assert(lex_lt(old_v[p as int], old_v[j - 1]));
                lemma_lex_trans(x@, old_v[p as int], old_v[j - 1]);
            } else if i > p {
                assert(nv[i] == old_v[i - 1] && nv[j] == old_v[j - 1]);
            }
        }
        assert forall|y: Seq<char>| nv.contains(y) <==> (old_v.contains(y) || y == x@) by {
            if nv.contains(y) {
                let i = choose|i: int| 0 <= i < nv.len() && nv[i] == y;
                if i < p {
                    assert(old_v[i] == y);
                } else if i > p {
                    assert(old_v[i - 1] == y);
                }
            }
            if old_v.contains(y) {
                let i = choose|i: int| 0 <= i < old_v.len() && old_v[i] == y;
                if i < p {
                    assert(nv[i] == y);
                } else {
                    assert(nv[i + 1] == y);
                }
            }
            if y == x@ {
                assert(nv[p as int] == y);
            }
        }
    }
}


// ── Unused flags ───────────────────────────────────────────────────

/// A source file as the unused-flag search sees it: its canonical path and
/// its file name when they could be had, and its lines.
pub struct SourceFile {
    pub canonical: Option<String>,
    pub name: Option<String>,
    pub lines: Vec<String>,
}

/// The unused-flag search passes over a file that is one of `skip` (the
/// Flagfile and its test file, by canonical path) or whose name marks a
/// test file.
pub open spec fn skipped(f: SourceFile, skip: Seq<Seq<char>>) -> bool {
    ||| f.canonical matches Some(c) && skip.contains(c@)
    ||| f.name matches Some(n) && is_test_file_name(n@)
}

/// The flag references in the files that are not skipped, one file after
/// another; `None` when the pattern does not compile.
pub open spec fn scanned_matches(pattern: Seq<char>, files: Seq<SourceFile>, skip: Seq<Seq<char>>) -> Option<
    Seq<Seq<char>>,
>
    decreases files.len(),
{
    if files.len() == 0 {
        Some(Seq::empty())
    } else {
        let prev = scanned_matches(pattern, files.drop_last(), skip);
        if skipped(files.last(), skip) {
            prev
        } else {
            match (prev, lines_matches(pattern, string_views(files.last().lines@))) {
                (Some(a), Some(b)) => Some(a + b),
                _ => None,
            }
        }
    }
}

proof fn lemma_scanned_none(pattern: Seq<char>, fs: Seq<SourceFile>, skip: Seq<Seq<char>>, k: int)
    requires
        0 <= k <= fs.len(),
        scanned_matches(pattern, fs.subrange(0, k), skip) is None,
    ensures
        scanned_matches(pattern, fs, skip) is None,
    decreases fs.len() - k,
{
    if k < fs.len() {
        assert(fs.subrange(0, k + 1).drop_last() =~= fs.subrange(0, k));
        lemma_scanned_none(pattern, fs, skip, k + 1);
    } else {
        assert(fs.subrange(0, k) =~= fs);
    }
}

/// Whether a file is passed over by the unused-flag search (see `skipped`).
fn is_skipped(f: &SourceFile, skip: &Vec<String>) -> (b: bool)
    ensures
        b == skipped(*f, string_views(skip@)),
{
    let by_path = match &f.canonical {
        Some(c) => crate::text::contains_str(skip, c.as_str()),
        None => false,
    };
    let by_name = match &f.name {
        Some(n) => is_test_file(n.as_str()),
        None => false,
    };
    by_path || by_name
}

/// `ff find --unused`: the defined flags that no scanned file references
/// (see `unused_in` and `scanned_matches`); `None` when the search pattern
/// does not compile.
pub fn unreferenced_flags(defined: &Vec<String>, files: &Vec<SourceFile>, skip: &Vec<String>) -> (r:
    Option<Vec<String>>)
    ensures
        match r {
            Some(u) => exists|seen: Seq<Seq<char>>|
                {
                    &&& scanned_matches(search_regex(None), files@, string_views(skip@)) == Some(seen)
                    &&& string_views(u@) == unused_in(string_views(defined@), seen)
                },
            None => scanned_matches(search_regex(None), files@, string_views(skip@)) is None,
        },
{
    let pattern = search_pattern(None);
    let ghost sk = string_views(skip@);
    let mut seen: Vec<String> = Vec::new();
    let mut k: usize = 0;
    assert(files@.subrange(0, 0) =~= Seq::<SourceFile>::empty());
    assert(string_views(seen@) =~= Seq::<Seq<char>>::empty());
    while k < files.len()
        invariant
            k <= files@.len(),
            sk == string_views(skip@),
            pattern@ == search_regex(None),
            scanned_matches(pattern@, files@.subrange(0, k as int), sk) == Some(string_views(seen@)),
        decreases files@.len() - k,
    {
        proof {
            assert(files@.subrange(0, k + 1).drop_last() =~= files@.subrange(0, k as int));
            assert(files@.subrange(0, k + 1).last() == files@[k as int]);
        }
        if !is_skipped(&files[k], skip) {
            match line_matches(pattern.as_str(), &files[k].lines) {
                Some(m) => {
                    append_strings(&mut seen, m);
                },
                None => {
                    proof {
                        lemma_scanned_none(pattern@, files@, sk, k as int + 1);
                    }
                    return None;
                },
            }
        }
        k = k + 1;
    }
    assert(files@.subrange(0, k as int) =~= files@);
    Some(unused_flags(defined, &seen))
}

// ── Matching lines ─────────────────────────────────────────────────

/// The 1-based numbers of the lines that hold a match of `pattern`.
pub open spec fn hit_lines(pattern: Seq<char>, lines: Seq<Seq<char>>) -> Option<Seq<int>>
    decreases lines.len(),
{
    if lines.len() == 0 {
        Some(Seq::empty())
    } else {
        match (hit_lines(pattern, lines.drop_last()), regex_find_all(pattern, lines.last())) {
            (Some(a), Some(m)) => Some(
                if m.len() > 0 {
                    a.push(lines.len() as int)
                } else {
                    a
                },
            ),
            _ => None,
        }
    }
}

/// `ff find` without options: the 1-based numbers of the lines of a file
/// that hold a flag reference (see `hit_lines`); `None` when the search
/// pattern does not compile.
pub fn matching_line_numbers(search: Option<&str>, lines: &Vec<String>) -> (r: Option<Vec<usize>>)
    ensures
        match r {
            Some(v) => hit_lines(search_regex(crate::text::opt_str(search)), string_views(lines@))
                == Some(v@.map_values(|n: usize| n as int)),
            None => hit_lines(search_regex(crate::text::opt_str(search)), string_views(lines@))
                is None,
        },
{
    let pattern = search_pattern(search);
    let ghost lv = string_views(lines@);
    let mut out: Vec<usize> = Vec::new();
    let mut i: usize = 0;
    assert(lv.subrange(0, 0) =~= Seq::<Seq<char>>::empty());
    assert(out@.map_values(|n: usize| n as int) =~= Seq::<int>::empty());
    while i < lines.len()
        invariant
            i <= lines@.len(),
            lv == string_views(lines@),
            pattern@ == search_regex(crate::text::opt_str(search)),
            hit_lines(pattern@, lv.subrange(0, i as int)) == Some(out@.map_values(|n: usize| n as int)),
        decreases lines@.len() - i,
    {
        proof {
            assert(lv.subrange(0, i + 1).drop_last() =~= lv.subrange(0, i as int));
            assert(lv.subrange(0, i + 1).last() == lines@[i as int]@);
        }
        match find_all(pattern.as_str(), lines[i].as_str()) {
            Some(m) => {
                if m.len() > 0 {
                    let ghost before = out@.map_values(|n: usize| n as int);
                    out.push(i + 1);
                    assert(out@.map_values(|n: usize| n as int) =~= before.push(i + 1));
                }
            },
            None => {
                proof {
                    lemma_hit_lines_none(pattern@, lv, i as int + 1);
                }
                return None;
            },
        }
        i = i + 1;
    }
    assert(lv.subrange(0, i as int) =~= lv);
    Some(out)
}

proof fn lemma_hit_lines_none(pattern: Seq<char>, lv: Seq<Seq<char>>, k: int)
    requires
        0 <= k <= lv.len(),
        hit_lines(pattern, lv.subrange(0, k)) is None,
    ensures
        hit_lines(pattern, lv) is None,
    decreases lv.len() - k,
{
    if k < lv.len() {
        assert(lv.subrange(0, k + 1).drop_last() =~= lv.subrange(0, k));
        lemma_hit_lines_none(pattern, lv, k + 1);
    } else {
        assert(lv.subrange(0, k) =~= lv);
    }
}

} // verus!
