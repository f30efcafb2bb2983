use vstd::prelude::*;
use crate::scanner::{ascending, positions};
use crate::text::{push_char, string_of};
use vstd::slice::slice_subrange;

verus! {

/// The first `n` characters of `s`, without those at the positions in `drops`.
pub open spec fn kept(s: Seq<char>, drops: Seq<int>, n: int) -> Seq<char>
    decreases n,
{
    if n <= 0 {
        Seq::empty()
    } else if drops.contains(n - 1) {
        kept(s, drops, n - 1)
    } else {
        kept(s, drops, n - 1).push(s[n - 1])
    }
}

/// The characters of `s`, in order, without those at the positions in `drops`.
pub open spec fn clean(s: Seq<char>, drops: Seq<int>) -> Seq<char> {
    kept(s, drops, s.len() as int)
}

/// Nothing dropped leaves the first `n` characters.
proof fn lemma_kept_nothing(s: Seq<char>, n: int)
    requires
        0 <= n <= s.len(),
    ensures
        kept(s, Seq::empty(), n) == s.take(n),
    decreases n,
{
    if n > 0 {
        lemma_kept_nothing(s, n - 1);
        assert(s.take(n) =~= s.take(n - 1).push(s[n - 1]));
    } else {
        assert(s.take(n) =~= Seq::<char>::empty());
    }
}

/// Cleaning with no positions to drop gives back the text as it was.
pub proof fn lemma_clean_identity(s: Seq<char>)
    ensures
        clean(s, Seq::empty()) == s,
{
    lemma_kept_nothing(s, s.len() as int);
    assert(s.take(s.len() as int) =~= s);
}

/// Positions `a` to `b` all dropped leave the kept characters as they were.
proof fn lemma_kept_skip(s: Seq<char>, drops: Seq<int>, a: int, b: int)
    requires
        0 <= a <= b,
        forall|k: int| a <= k < b ==> drops.contains(k),
    ensures
        kept(s, drops, b) == kept(s, drops, a),
    decreases b - a,
{
    if b > a {
        lemma_kept_skip(s, drops, a, b - 1);
    }
}

/// Positions `a` to `b` none dropped add those characters as they stand.
proof fn lemma_kept_copy(s: Seq<char>, drops: Seq<int>, a: int, b: int)
    requires
        0 <= a <= b <= s.len(),
        forall|k: int| a <= k < b ==> !drops.contains(k),
    ensures
        kept(s, drops, b) == kept(s, drops, a) + s.subrange(a, b),
    decreases b - a,
{
    if b > a {
        lemma_kept_copy(s, drops, a, b - 1);
        assert(s.subrange(a, b) =~= s.subrange(a, b - 1).push(s[b - 1]));
        assert(kept(s, drops, a) + s.subrange(a, b) =~= (kept(s, drops, a) + s.subrange(a, b - 1)).push(
            s[b - 1],
        ));
    } else {
        assert(kept(s, drops, a) + s.subrange(a, b) =~= kept(s, drops, a));
    }
}

/// Returns `value` without the characters at the positions in `remove`,
/// which are strictly ascending. The runs of dropped positions at either end
/// are stripped first; the text between them is copied whole where no
/// dropped position falls inside it, else character by character.
pub fn remove_unwanted(value: &[char], remove: Vec<usize>) -> (r: String)
    requires
        ascending(positions(remove@)),
    ensures
        r@ == clean(value@, positions(remove@)),
        remove@.len() == 0 ==> r@ == value@,
{
    let ghost drops = positions(remove@);
    let ghost s = value@;
    if remove.len() == 0 || value.len() == 0 {
        proof {
            if remove@.len() == 0 {
                assert(drops =~= Seq::<int>::empty());
                lemma_clean_identity(value@);
            }
        }
        return string_of(value);
    }
    let n = value.len();
    let count = remove.len();
    // the run of dropped positions at the start: 0, 1, ..., start - 1
    let mut start: usize = 0;
    while start < count && remove[start] == start
        invariant
            drops == positions(remove@),
            count == drops.len(),
            start <= count,
            forall|m: int| 0 <= m < start ==> drops[m] == m,
        decreases count - start,
    {
        start = start + 1;
    }
    // the run of dropped positions at the end: hi, ..., n - 1
    let mut hi: usize = n;
    let mut t: usize = 0;
    while t < count && hi > 0 && remove[count - 1 - t] == hi - 1
        invariant
            drops == positions(remove@),
            count == drops.len(),
            t <= count,
            hi + t == n,
            forall|m: int| count - t <= m < count ==> #[trigger] drops[m] == m + n - count,
        decreases count - t,
    {
        hi = hi - 1;
        t = t + 1;
    }
    proof {
        assert forall|k: int| 0 <= k < start implies drops.contains(k) by {
            assert(drops[k] == k);
        }
        assert forall|k: int| hi <= k < n implies drops.contains(k) by {
            assert(drops[k + count - n] == k);
        }
        lemma_kept_skip(s, drops, 0, start as int);
        if start < hi {
            lemma_kept_skip(s, drops, hi as int, n as int);
        } else {
            lemma_kept_skip(s, drops, 0, n as int);
        }
    }
    if hi <= start {
        // nothing survives the two runs
        return String::new();
    }
    if start + t >= count {
        // every dropped position lies in one of the two runs
        proof {
            assert forall|k: int| start <= k < hi implies !drops.contains(k) by {
                if drops.contains(k) {
                    let m = choose|m: int| 0 <= m < drops.len() && drops[m] == k;
                    if m < start {
                        assert(drops[m] == m);
                    } else {
                        assert(drops[m] == m + n - count);
                    }
                }
            }
            lemma_kept_copy(s, drops, start as int, hi as int);
            assert(Seq::<char>::empty() + s.subrange(start as int, hi as int) =~= s.subrange(start as int, hi as int));
        }
        return string_of(slice_subrange(value, start, hi));
    }
    let mut r = String::new();
    let mut j: usize = start;
    let mut k: usize = start;
    proof {
        if start < count && start > 0 {
            assert(drops[start - 1] < drops[start as int]);
        }
    }
    while k < hi
        invariant
            drops == positions(remove@),
            ascending(drops),
            s == value@,
            hi <= s.len(),
            k <= hi,
            j <= remove@.len(),
            forall|m: int| 0 <= m < j ==> drops[m] < k,
            j < remove@.len() ==> drops[j as int] >= k,
            r@ == kept(s, drops, k as int),
        decreases hi - k,
    {
        let ghost kk = k as int;
        if j < remove.len() && remove[j] == k {
            assert(drops.contains(kk)) by {
                assert(drops[j as int] == kk);
            }
            j = j + 1;
        } else {
            assert(!drops.contains(kk)) by {
                if drops.contains(kk) {
                    let m = choose|m: int| 0 <= m < drops.len() && drops[m] == kk;
                    if m > j {
                        assert(drops[j as int] < drops[m]);
                    }
                }
            }
            push_char(&mut r, value[k]);
        }
        k = k + 1;
    }
    r
}

} // verus!
