//! A unified-style line diff between a Flagfile and its formatted text, as
//! `ff fmt --diff` prints it.
use vstd::prelude::*;
use crate::text::{
    chars_eq, chars_of, concat2, decimal, decimal_of, lines, lines_of, push_all, string_of, views,
};

verus! {

/// Line `k` is present and equal in both texts.
pub open spec fn same_at(a: Seq<Seq<char>>, b: Seq<Seq<char>>, k: int) -> bool {
    0 <= k < a.len() && k < b.len() && a[k] == b[k]
}

/// A run of changes may end at `j`: line `j` is unchanged, and so is the
/// next line where both texts have one.
pub open spec fn settles_at(a: Seq<Seq<char>>, b: Seq<Seq<char>>, j: int) -> bool {
    same_at(a, b, j) && (j + 1 >= a.len() || j + 1 >= b.len() || a[j + 1] == b[j + 1])
}

/// The first index from `j` on where a run of changes ends, or `max`.
pub open spec fn run_end(a: Seq<Seq<char>>, b: Seq<Seq<char>>, j: int, max: int) -> int
    decreases max - j,
{
    if j >= max {
        j
    } else if settles_at(a, b, j) {
        j
    } else {
        run_end(a, b, j + 1, max)
    }
}

/// The diff lines for line `k`: ` ` for a line the texts share, `-` for the
/// original's line and `+` for the formatted one otherwise.
pub open spec fn line_diff(a: Seq<Seq<char>>, b: Seq<Seq<char>>, k: int) -> Seq<Seq<char>> {
    if k < a.len() && k < b.len() {
        if a[k] == b[k] {
            seq![seq![' '] + a[k]]
        } else {
            seq![seq!['-'] + a[k], seq!['+'] + b[k]]
        }
    } else if k < a.len() {
        seq![seq!['-'] + a[k]]
    } else if k < b.len() {
        seq![seq!['+'] + b[k]]
    } else {
        Seq::empty()
    }
}

/// The diff lines for lines `s..e`.
pub open spec fn hunk_body(a: Seq<Seq<char>>, b: Seq<Seq<char>>, s: int, e: int) -> Seq<Seq<char>>
    decreases e - s,
{
    if e <= s {
        Seq::empty()
    } else {
        hunk_body(a, b, s, e - 1) + line_diff(a, b, e - 1)
    }
}

/// `x - y`, or 0 when `y` is larger.
pub open spec fn sat_sub(x: int, y: int) -> nat {
    if x >= y {
        (x - y) as nat
    } else {
        0
    }
}

/// The header of the hunk covering lines `s..e`.
pub open spec fn hunk_header(a: Seq<Seq<char>>, b: Seq<Seq<char>>, s: int, e: int) -> Seq<char> {
    let a_end = if e < a.len() { e } else { a.len() as int };
    let b_end = if e < b.len() { e } else { b.len() as int };
    "@@ -"@ + decimal((s + 1) as nat) + ","@ + decimal(sat_sub(a_end, s)) + " +"@ + decimal(
        (s + 1) as nat,
    ) + ","@ + decimal(sat_sub(b_end, s)) + " @@"@
}

pub proof fn lemma_run_end_bounds(a: Seq<Seq<char>>, b: Seq<Seq<char>>, j: int, max: int)
    ensures
        j <= max ==> j <= run_end(a, b, j, max) <= max,
    decreases max - j,
{
    if j < max && !settles_at(a, b, j) {
        lemma_run_end_bounds(a, b, j + 1, max);
    }
}

/// The hunks of the diff from line `i` on: unchanged lines are skipped; a
/// change starts a hunk two lines before it, which runs until two lines
/// after the run of changes ends.
pub open spec fn hunks_from(a: Seq<Seq<char>>, b: Seq<Seq<char>>, i: int, max: int) -> Seq<
    Seq<char>,
>
    decreases max - i,
{
    if i < 0 || i >= max {
        Seq::empty()
    } else if same_at(a, b, i) {
        hunks_from(a, b, i + 1, max)
    } else {
        let s = if i >= 2 { i - 2 } else { 0 };
        let j = run_end(a, b, i, max);
        let e = if j + 2 < max { j + 2 } else { max };
        proof {
            lemma_run_end_bounds(a, b, i, max);
        }
        seq![hunk_header(a, b, s, e)] + hunk_body(a, b, s, e) + hunks_from(a, b, e, max)
    }
}

/// The lines `ff fmt --diff` prints for `path`: "no changes" when the line
/// lists agree, else the two file headers and the hunks.
pub open spec fn diff_text(original: Seq<char>, formatted: Seq<char>, path: Seq<char>) -> Seq<
    Seq<char>,
> {
    let a = lines(original);
    let b = lines(formatted);
    let max = if a.len() >= b.len() { a.len() as int } else { b.len() as int };
    if a == b {
        seq!["no changes: "@ + path]
    } else {
        seq!["--- "@ + path, "+++ "@ + path] + hunks_from(a, b, 0, max)
    }
}

fn same_line(a: &Vec<Vec<char>>, b: &Vec<Vec<char>>, k: usize) -> (r: bool)
    ensures
        r == same_at(views(a@), views(b@), k as int),
{
    k < a.len() && k < b.len() && chars_eq(&a[k], &b[k])
}

fn prefixed(c: char, line: &Vec<char>) -> (r: Vec<char>)
    ensures
        r@ == seq![c] + line@,
{
    let mut r: Vec<char> = Vec::new();
    r.push(c);
    push_all(&mut r, line);
    r
}

fn hunk_lines(a: &Vec<Vec<char>>, b: &Vec<Vec<char>>, s: usize, e: usize, out: &mut Vec<Vec<char>>)
    requires
        s <= e,
    ensures
        views(final(out)@) == views(old(out)@) + hunk_body(views(a@), views(b@), s as int, e as int),
{
    let ghost av = views(a@);
    let ghost bv = views(b@);
    let mut k = s;
    assert(hunk_body(av, bv, s as int, s as int) =~= Seq::<Seq<char>>::empty());
    while k < e
        invariant
            s <= k <= e,
            av == views(a@),
            bv == views(b@),
            views(out@) == views(old(out)@) + hunk_body(av, bv, s as int, k as int),
        decreases e - k,
    {
        let ghost before = views(out@);
        if k < a.len() && k < b.len() {
            if chars_eq(&a[k], &b[k]) {
                out.push(prefixed(' ', &a[k]));
            } else {
                out.push(prefixed('-', &a[k]));
                out.push(prefixed('+', &b[k]));
            }
        } else if k < a.len() {
            out.push(prefixed('-', &a[k]));
        } else if k < b.len() {
            out.push(prefixed('+', &b[k]));
        }
        assert(views(out@) =~= before + line_diff(av, bv, k as int));
        k = k + 1;
    }
}

fn header_line(a_len: usize, b_len: usize, s: usize, e: usize, Ghost(a): Ghost<Seq<Seq<char>>>, Ghost(b): Ghost<Seq<Seq<char>>>) -> (r: Vec<char>)
    requires
        a.len() == a_len,
        b.len() == b_len,
        s < usize::MAX,
    ensures
        r@ == hunk_header(a, b, s as int, e as int),
{
    let a_end = if e < a_len { e } else { a_len };
    let b_end = if e < b_len { e } else { b_len };
    let a_count: usize = if a_end >= s { a_end - s } else { 0 };
    let b_count: usize = if b_end >= s { b_end - s } else { 0 };
    let first = decimal_of((s + 1) as u64);
    let mut r = chars_of("@@ -");
    push_all(&mut r, &chars_of(first.as_str()));
    push_all(&mut r, &chars_of(","));
    push_all(&mut r, &chars_of(decimal_of(a_count as u64).as_str()));
    push_all(&mut r, &chars_of(" +"));
    push_all(&mut r, &chars_of(first.as_str()));
    push_all(&mut r, &chars_of(","));
    push_all(&mut r, &chars_of(decimal_of(b_count as u64).as_str()));
    push_all(&mut r, &chars_of(" @@"));
    r
}

/// The lines `ff fmt --diff` prints for `path` (see `diff_text`).
pub fn diff_lines(original: &str, formatted: &str, path: &str) -> (r: Vec<String>)
    ensures
        crate::text::string_views(r@) == diff_text(original@, formatted@, path@),
{
    let a = lines_of(&chars_of(original));
    let b = lines_of(&chars_of(formatted));
    let ghost av = views(a@);
    let ghost bv = views(b@);
    let mut equal = a.len() == b.len();
    let mut k: usize = 0;
    while equal && k < a.len()
        invariant
            av == views(a@),
            bv == views(b@),
            k <= a.len(),
            equal ==> a.len() == b.len(),
            equal ==> forall|m: int| 0 <= m < k ==> av[m] == bv[m],
            !equal ==> av != bv,
        decreases a.len() - k, if equal { 1int } else { 0int },
    {
        if !chars_eq(&a[k], &b[k]) {
            assert(av[k as int] != bv[k as int]);
            equal = false;
        } else {
            k = k + 1;
        }
    }
    let mut out: Vec<Vec<char>> = Vec::new();
    if equal {
        assert(av =~= bv);
        out.push(chars_of(concat2("no changes: ", path).as_str()));
        let r = to_strings(&out);
        assert(views(out@) =~= seq!["no changes: "@ + path@]);
        return r;
    }
    out.push(chars_of(concat2("--- ", path).as_str()));
    out.push(chars_of(concat2("+++ ", path).as_str()));
    let ghost head = views(out@);
    assert(head =~= seq!["--- "@ + path@, "+++ "@ + path@]);
    let max = if a.len() >= b.len() { a.len() } else { b.len() };
    let mut i: usize = 0;
    while i < max
        invariant
            i <= max,
            max == if av.len() >= bv.len() { av.len() as int } else { bv.len() as int },
            a@.len() == av.len(),
            b@.len() == bv.len(),
            av == views(a@),
            bv == views(b@),
            views(out@) + hunks_from(av, bv, i as int, max as int) == head + hunks_from(
                av,
                bv,
                0,
                max as int,
            ),
        decreases max - i,
    {
        if same_line(&a, &b, i) {
            i = i + 1;
        } else {
            let s: usize = if i >= 2 { i - 2 } else { 0 };
            let mut j = i;
            while j < max
                invariant
                    i <= j <= max,
                    av == views(a@),
                    bv == views(b@),
                    run_end(av, bv, i as int, max as int) == run_end(av, bv, j as int, max as int),
                ensures
                    run_end(av, bv, i as int, max as int) == j as int,
                decreases max - j,
            {
                let settled = same_line(&a, &b, j) && (j + 1 >= a.len() || j + 1 >= b.len()
                    || chars_eq(&a[j + 1], &b[j + 1]));
                if settled {
                    break ;
                }
                j = j + 1;
            }
            proof {
                lemma_run_end_bounds(av, bv, i as int, max as int);
            }
            let e = if max >= 2 && j < max - 2 { j + 2 } else { max };
            proof {
                let s_spec: int = if i >= 2 { i - 2 } else { 0 };
                assert(s as int == s_spec);
                assert(!same_at(av, bv, i as int));
                assert(hunks_from(av, bv, i as int, max as int) == seq![hunk_header(av, bv, s as int, e as int)]
                    + hunk_body(av, bv, s as int, e as int) + hunks_from(av, bv, e as int, max as int));
            }
            let ghost before = views(out@);
            out.push(header_line(a.len(), b.len(), s, e, Ghost(av), Ghost(bv)));
            hunk_lines(&a, &b, s, e, &mut out);
            assert(views(out@) =~= before + seq![hunk_header(av, bv, s as int, e as int)]
                + hunk_body(av, bv, s as int, e as int));
            assert(views(out@) + hunks_from(av, bv, e as int, max as int) =~= before + hunks_from(
                av,
                bv,
                i as int,
                max as int,
            ));
            i = e;
        }
    }
    assert(hunks_from(av, bv, i as int, max as int) =~= Seq::<Seq<char>>::empty());
    to_strings(&out)
}

fn to_strings(v: &Vec<Vec<char>>) -> (r: Vec<String>)
    ensures
        crate::text::string_views(r@) == views(v@),
{
    let mut r: Vec<String> = Vec::new();
    let mut i: usize = 0;
    while i < v.len()
        invariant
            i <= v@.len(),
            crate::text::string_views(r@) == views(v@.subrange(0, i as int)),
        decreases v@.len() - i,
    {
        let ghost before = crate::text::string_views(r@);
        r.push(string_of(&v[i]));
        assert(crate::text::string_views(r@) =~= before.push(v@[i as int]@));
        assert(views(v@.subrange(0, i + 1)) =~= views(v@.subrange(0, i as int)).push(v@[i as int]@));
        i = i + 1;
    }
    assert(v@.subrange(0, i as int) =~= v@);
    r
}

} // verus!
