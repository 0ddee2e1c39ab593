//! Decimal numbers in text: what `str::parse` accepts for the integer
//! types the tools read.
use vstd::prelude::*;
use crate::text::slice_of;

verus! {

/// The decimal value of a run of ASCII digits.
pub open spec fn digits_value(d: Seq<char>) -> int
    decreases d.len(),
{
    if d.len() == 0 {
        0
    } else {
        10 * digits_value(d.drop_last()) + (d.last() as int - '0' as int)
    }
}

/// All characters are ASCII digits.
pub open spec fn all_digits(d: Seq<char>) -> bool {
    forall|i: int| 0 <= i < d.len() ==> '0' <= #[trigger] d[i] && d[i] <= '9'
}

/// `str::parse::<i64>` succeeds: an optional sign, at least one digit, and
/// a value in the range of `i64`.
pub open spec fn parses_i64(t: Seq<char>) -> bool {
    let signed = t.len() > 0 && (t[0] == '+' || t[0] == '-');
    let d = if signed { t.drop_first() } else { t };
    &&& d.len() > 0
    &&& all_digits(d)
    &&& if signed && t[0] == '-' {
        digits_value(d) <= 9223372036854775808
    } else {
        digits_value(d) <= 9223372036854775807
    }
}

proof fn lemma_digits_push(d: Seq<char>, i: int)
    requires
        0 <= i < d.len(),
    ensures
        digits_value(d.subrange(0, i + 1)) == 10 * digits_value(d.subrange(0, i)) + (d[i] as int
            - '0' as int),
{
    assert(d.subrange(0, i + 1).drop_last() =~= d.subrange(0, i));
}

proof fn lemma_digits_nonneg(d: Seq<char>)
    requires
        all_digits(d),
    ensures
        digits_value(d) >= 0,
    decreases d.len(),
{
    if d.len() > 0 {
        lemma_digits_nonneg(d.drop_last());
    }
}

/// Whether the text parses as an `i64` (see `parses_i64`).
pub fn parses_i64_of(t: &[char]) -> (b: bool)
    ensures
        b == parses_i64(t@),
{
    let signed = t.len() > 0 && (t[0] == '+' || t[0] == '-');
    let neg = signed && t[0] == '-';
    let start: usize = if signed {
        1
    } else {
        0
    };
    let d = slice_of(t, start, t.len());
    assert(d@ == if signed { t@.drop_first() } else { t@ });
    if d.len() == 0 {
        return false;
    }
    let limit: u128 = if neg {
        9223372036854775808
    } else {
        9223372036854775807
    };
    let mut v: u128 = 0;
    let mut i: usize = 0;
    while i < d.len()
        invariant
            i <= d.len(),
            all_digits(d@.subrange(0, i as int)),
            v == digits_value(d@.subrange(0, i as int)),
            v <= limit,
            signed == (t@.len() > 0 && (t@[0] == '+' || t@[0] == '-')),
            d@ == if signed { t@.drop_first() } else { t@ },
            limit == if signed && t@[0] == '-' { 9223372036854775808u128 } else { 9223372036854775807u128 },
        decreases d.len() - i,
    {
        let c = d[i];
        if !('0' <= c && c <= '9') {
            proof {
                if all_digits(d@) {
                    assert('0' <= d@[i as int] && d@[i as int] <= '9');
                }
            }
            return false;
        }
        proof {
            lemma_digits_push(d@, i as int);
        }
        let nv = v * 10 + ((c as u32) - ('0' as u32)) as u128;
        if nv > limit {
            proof {
                assert(all_digits(d@.subrange(0, i + 1))) by {
                    assert forall|m: int| 0 <= m < i + 1 implies '0' <= #[trigger] d@.subrange(0, i + 1)[m] && d@.subrange(0, i + 1)[m] <= '9' by {
                        if m < i {
                            assert(d@.subrange(0, i + 1)[m] == d@.subrange(0, i as int)[m]);
                        }
                    }
                }
                if all_digits(d@) {
                    lemma_digits_monotone(d@, i + 1);
                }
            }
            return false;
        }
        v = nv;
        i = i + 1;
        assert(all_digits(d@.subrange(0, i as int))) by {
            assert forall|m: int| 0 <= m < i implies '0' <= #[trigger] d@.subrange(0, i as int)[m] && d@.subrange(0, i as int)[m] <= '9' by {
                if m < i - 1 {
                    assert(d@.subrange(0, i as int)[m] == d@.subrange(0, i - 1)[m]);
                }
            }
        }
    }
    assert(d@.subrange(0, d.len() as int) =~= d@);
    true
}

/// Appending digits never lowers the value of a digit run.
proof fn lemma_digits_monotone(d: Seq<char>, k: int)
    requires
        0 <= k <= d.len(),
        all_digits(d),
    ensures
        digits_value(d.subrange(0, k)) <= digits_value(d),
    decreases d.len() - k,
{
    if k < d.len() {
        lemma_digits_monotone(d, k + 1);
        lemma_digits_push(d, k);
        assert(all_digits(d.subrange(0, k))) by {
            assert forall|m: int| 0 <= m < k implies '0' <= #[trigger] d.subrange(0, k)[m] && d.subrange(0, k)[m] <= '9' by {
                assert(d.subrange(0, k)[m] == d[m]);
            }
        }
        lemma_digits_nonneg(d.subrange(0, k));
    } else {
        assert(d.subrange(0, k) =~= d);
    }
}

/// The value `str::parse::<i64>` gives for `t`, or `None` where it fails.
pub open spec fn i64_value(t: Seq<char>) -> Option<int> {
    if parses_i64(t) {
        let signed = t[0] == '+' || t[0] == '-';
        let d = if signed { t.drop_first() } else { t };
        Some(if t[0] == '-' { -digits_value(d) } else { digits_value(d) })
    } else {
        None
    }
}

/// The value of a run of digits whose value is at most `max`.
fn digits_to_u128(d: &[char], Ghost(max): Ghost<int>) -> (v: u128)
    requires
        all_digits(d@),
        digits_value(d@) <= max,
        max < 0x1_0000_0000_0000_0000_0000,
    ensures
        v == digits_value(d@),
{
    let mut v: u128 = 0;
    let mut i: usize = 0;
    while i < d.len()
        invariant
            i <= d.len(),
            all_digits(d@),
            digits_value(d@) <= max,
            max < 0x1_0000_0000_0000_0000_0000,
            v == digits_value(d@.subrange(0, i as int)),
        decreases d.len() - i,
    {
        proof {
            lemma_digits_push(d@, i as int);
            lemma_digits_monotone(d@, i + 1);
            assert('0' <= d@[i as int] && d@[i as int] <= '9');
        }
        v = v * 10 + ((d[i] as u32) - ('0' as u32)) as u128;
        i = i + 1;
    }
    assert(d@.subrange(0, d.len() as int) =~= d@);
    v
}

/// `str::parse::<i64>`.
pub fn parse_i64_of(t: &[char]) -> (r: Option<i64>)
    ensures
        match r {
            Some(v) => i64_value(t@) == Some(v as int),
            None => i64_value(t@) is None,
        },
{
    if !parses_i64_of(t) {
        return None;
    }
    let signed = t[0] == '+' || t[0] == '-';
    let neg = t[0] == '-';
    let start: usize = if signed { 1 } else { 0 };
    let d = slice_of(t, start, t.len());
    assert(d@ == if signed { t@.drop_first() } else { t@ });
    let v = digits_to_u128(&d, Ghost(9223372036854775808int));
    if neg {
        if v == 9223372036854775808u128 {
            Some(i64::MIN)
        } else {
            Some(-(v as i64))
        }
    } else {
        Some(v as i64)
    }
}

/// The value `str::parse` gives for `t` as an unsigned integer type whose
/// largest value is `max`: an optional `+`, then at least one ASCII digit;
/// `None` where it fails.
pub open spec fn unsigned_value(t: Seq<char>, max: int) -> Option<int> {
    let d = if t.len() > 0 && t[0] == '+' { t.drop_first() } else { t };
    if d.len() > 0 && all_digits(d) && digits_value(d) <= max {
        Some(digits_value(d))
    } else {
        None
    }
}

/// `str::parse` for an unsigned integer type whose largest value is `max`.
pub fn parse_unsigned_of(t: &[char], max: u64) -> (r: Option<u64>)
    ensures
        match r {
            Some(v) => unsigned_value(t@, max as int) == Some(v as int),
            None => unsigned_value(t@, max as int) is None,
        },
{
    let start: usize = if t.len() > 0 && t[0] == '+' { 1 } else { 0 };
    let d = slice_of(t, start, t.len());
    assert(d@ == if t@.len() > 0 && t@[0] == '+' { t@.drop_first() } else { t@ });
    if d.len() == 0 {
        return None;
    }
    let mut v: u128 = 0;
    let mut i: usize = 0;
    while i < d.len()
        invariant
            i <= d.len(),
            all_digits(d@.subrange(0, i as int)),
            v == digits_value(d@.subrange(0, i as int)),
            v <= max,
            d@ == (if t@.len() > 0 && t@[0] == '+' { t@.drop_first() } else { t@ }),
        decreases d.len() - i,
    {
        let c = d[i];
        if !('0' <= c && c <= '9') {
            proof {
                if all_digits(d@) {
                    assert('0' <= d@[i as int] && d@[i as int] <= '9');
                }
            }
            return None;
        }
        proof {
            lemma_digits_push(d@, i as int);
        }
        let nv = v * 10 + ((c as u32) - ('0' as u32)) as u128;
        assert(all_digits(d@.subrange(0, i + 1))) by {
            assert forall|m: int| 0 <= m < i + 1 implies '0' <= #[trigger] d@.subrange(0, i + 1)[m]
                && d@.subrange(0, i + 1)[m] <= '9' by {
                if m < i {
                    assert(d@.subrange(0, i + 1)[m] == d@.subrange(0, i as int)[m]);
                }
            }
        }
        if nv > max as u128 {
            proof {
                if all_digits(d@) {
                    lemma_digits_monotone(d@, i + 1);
                }
            }
            return None;
        }
        v = nv;
        i = i + 1;
    }
    assert(d@.subrange(0, d.len() as int) =~= d@);
    Some(v as u64)
}

} // verus!
