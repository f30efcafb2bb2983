use vstd::prelude::*;
use crate::text::chars_of;

verus! {

/// An ASCII decimal digit.
pub open spec fn is_digit(c: char) -> bool {
    '0' <= c <= '9'
}

/// Every character of `ds` is a decimal digit.
pub open spec fn all_digits(ds: Seq<char>) -> bool {
    forall|k: int| 0 <= k < ds.len() ==> is_digit(#[trigger] ds[k])
}

/// The value of the decimal digits `ds`, most significant first.
pub open spec fn digits_value(ds: Seq<char>) -> int
    decreases ds.len(),
{
    if ds.len() == 0 {
        0
    } else {
        digits_value(ds.drop_last()) * 10 + (ds.last() as int - '0' as int)
    }
}

/// The integer that `s` writes: an optional `+` or `-` and at least one
/// decimal digit, nothing else.
pub open spec fn integer_value(s: Seq<char>) -> Option<int> {
    if s.len() > 0 && (s[0] == '-' || s[0] == '+') {
        let ds = s.drop_first();
        if ds.len() > 0 && all_digits(ds) {
            Some(if s[0] == '-' { -digits_value(ds) } else { digits_value(ds) })
        } else {
            None
        }
    } else if s.len() > 0 && all_digits(s) {
        Some(digits_value(s))
    } else {
        None
    }
}

/// The `i32` that `s` writes, or `None` where `s` writes no integer or one
/// out of range.
pub open spec fn parse_i32(s: Seq<char>) -> Option<i32> {
    match integer_value(s) {
        Some(v) => if i32::MIN <= v <= i32::MAX {
            Some(v as i32)
        } else {
            None
        },
        None => None,
    }
}

proof fn lemma_digits_nonneg(ds: Seq<char>)
    requires
        all_digits(ds),
    ensures
        digits_value(ds) >= 0,
    decreases ds.len(),
{
    if ds.len() > 0 {
        assert(all_digits(ds.drop_last()));
        lemma_digits_nonneg(ds.drop_last());
        assert(is_digit(ds[ds.len() - 1]));
    }
}

/// The value of one more digit after `ds`.
proof fn lemma_digits_push(ds: Seq<char>, c: char)
    ensures
        digits_value(ds.push(c)) == digits_value(ds) * 10 + (c as int - '0' as int),
{
    assert(ds.push(c).drop_last() =~= ds);
}

/// Reads `t` as an `i32`, the way `i32`'s `FromStr` does: an optional sign
/// and decimal digits, in range.
pub fn parse_i32_text(t: &str) -> (r: Option<i32>)
    ensures
        r == parse_i32(t@),
{
    let cs = chars_of(t);
    let n = cs.len();
    if n == 0 {
        return None;
    }
    let neg = cs[0] == '-';
    let start: usize = if cs[0] == '-' || cs[0] == '+' { 1 } else { 0 };
    if start >= n {
        return None;
    }
    let ghost ds = cs@.subrange(start as int, n as int);
    // past 2^31 the exact value no longer matters
    let mut acc: u64 = 0;
    let mut over = false;
    let mut i: usize = start;
    assert(cs@.subrange(start as int, start as int) =~= Seq::<char>::empty());
    while i < n
        invariant
            cs@ == t@,
            n == cs@.len(),
            start <= i <= n,
            start <= 1,
            start == 1 <==> (cs@[0] == '-' || cs@[0] == '+'),
            neg == (cs@[0] == '-'),
            n > 0,
            ds == cs@.subrange(start as int, n as int),
            all_digits(cs@.subrange(start as int, i as int)),
            acc <= 2147483648,
            !over ==> acc == digits_value(cs@.subrange(start as int, i as int)),
            over ==> digits_value(cs@.subrange(start as int, i as int)) > 2147483648,
        decreases n - i,
    {
        let c = cs[i];
        let ghost prefix = cs@.subrange(start as int, i as int);
        if !('0' <= c && c <= '9') {
            assert(!all_digits(ds)) by {
                assert(ds[i - start] == c);
            }
            if start == 1 {
                assert(ds =~= cs@.drop_first());
            } else {
                assert(ds =~= cs@);
            }
            return None;
        }
        proof {
            assert(cs@.subrange(start as int, i + 1) =~= prefix.push(c));
            lemma_digits_push(prefix, c);
            lemma_digits_nonneg(prefix);
        }
        let d = (c as u32 - '0' as u32) as u64;
        if !over {
            if acc * 10 + d > 2147483648 {
                over = true;
            } else {
                acc = acc * 10 + d;
            }
        }
        i = i + 1;
    }
    assert(cs@.subrange(start as int, n as int) == ds);
    if start == 1 {
        assert(ds =~= cs@.drop_first());
    } else {
        assert(ds =~= cs@);
    }
    if over {
        None
    } else if neg {
        Some((0 - acc as i64) as i32)
    } else if acc <= 2147483647 {
        Some(acc as i32)
    } else {
        None
    }
}

} // verus!
