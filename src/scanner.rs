use vstd::prelude::*;

verus! {

/// Where the scanner stands with respect to quotes.
#[derive(Clone, Copy, Debug, PartialEq, Eq, Structural)]
pub enum QuoteState {
    Plain,
    Double,
    Single,
}

/// Whitespace that ends an unquoted token.
pub open spec fn is_blank(c: char) -> bool {
    c == ' ' || c == '\t' || c == '\r'
}

/// A character that a backslash inside double quotes escapes.
pub open spec fn escapable_in_double(c: char) -> bool {
    c == '\\' || c == '"'
}

/// The scan of one token, continued from position `i` in quote state `q`,
/// with `drops` the positions marked so far: the final positions to drop and
/// the offset at which the token ends.
pub open spec fn scan_from(s: Seq<char>, i: int, q: QuoteState, drops: Seq<int>) -> (Seq<int>, int)
    decreases s.len() - i,
{
    if i < 0 || i >= s.len() {
        (drops, s.len() as int)
    } else {
        let c = s[i];
        match q {
            QuoteState::Plain => {
                if is_blank(c) {
                    (drops.push(i), i + 1)
                } else if c == '\\' {
                    if i + 1 < s.len() {
                        scan_from(s, i + 2, QuoteState::Plain, drops.push(i))
                    } else {
                        (drops.push(i), s.len() as int)
                    }
                } else if c == '"' {
                    scan_from(s, i + 1, QuoteState::Double, drops.push(i))
                } else if c == '\'' {
                    scan_from(s, i + 1, QuoteState::Single, drops.push(i))
                } else {
                    scan_from(s, i + 1, QuoteState::Plain, drops)
                }
            },
            QuoteState::Double => {
                if c == '"' {
                    scan_from(s, i + 1, QuoteState::Plain, drops.push(i))
                } else if c == '\\' && i + 1 < s.len() && escapable_in_double(s[i + 1]) {
                    scan_from(s, i + 2, QuoteState::Double, drops.push(i))
                } else {
                    scan_from(s, i + 1, QuoteState::Double, drops)
                }
            },
            QuoteState::Single => {
                if c == '\'' {
                    scan_from(s, i + 1, QuoteState::Plain, drops.push(i))
                } else {
                    scan_from(s, i + 1, QuoteState::Single, drops)
                }
            },
        }
    }
}

/// The scan of the first token of `s`: the positions of the quote marks,
/// escaping backslashes and the ending blank, which the token does not keep,
/// and the offset just past the token.
pub open spec fn scan(s: Seq<char>) -> (Seq<int>, int) {
    scan_from(s, 0, QuoteState::Plain, Seq::empty())
}

/// The positions are strictly ascending.
pub open spec fn ascending(drops: Seq<int>) -> bool {
    forall|a: int, b: int| 0 <= a < b < drops.len() ==> drops[a] < drops[b]
}

/// Positions all before `bound`, strictly ascending, and not negative.
pub open spec fn ordered_below(drops: Seq<int>, bound: int) -> bool {
    &&& ascending(drops)
    &&& forall|a: int| 0 <= a < drops.len() ==> 0 <= #[trigger] drops[a] < bound
}

/// A scan never goes back: it ends past where it resumed (unless the input
/// is used up), within the input, and adds ascending positions below its end.
pub proof fn lemma_scan_from_bounds(s: Seq<char>, i: int, q: QuoteState, drops: Seq<int>)
    requires
        0 <= i <= s.len(),
        ordered_below(drops, i),
    ensures
        i <= scan_from(s, i, q, drops).1 <= s.len(),
        i < s.len() ==> i < scan_from(s, i, q, drops).1,
        ordered_below(scan_from(s, i, q, drops).0, scan_from(s, i, q, drops).1),
    decreases s.len() - i,
{
    if i < s.len() {
        let c = s[i];
        let d = drops.push(i);
        assert(ordered_below(d, i + 1));
        match q {
            QuoteState::Plain => {
                if is_blank(c) {
                } else if c == '\\' {
                    if i + 1 < s.len() {
                        lemma_scan_from_bounds(s, i + 2, QuoteState::Plain, d);
                    }
                } else if c == '"' {
                    lemma_scan_from_bounds(s, i + 1, QuoteState::Double, d);
                } else if c == '\'' {
                    lemma_scan_from_bounds(s, i + 1, QuoteState::Single, d);
                } else {
                    lemma_scan_from_bounds(s, i + 1, QuoteState::Plain, drops);
                }
            },
            QuoteState::Double => {
                if c == '"' {
                    lemma_scan_from_bounds(s, i + 1, QuoteState::Plain, d);
                } else if c == '\\' && i + 1 < s.len() && escapable_in_double(s[i + 1]) {
                    lemma_scan_from_bounds(s, i + 2, QuoteState::Double, d);
                } else {
                    lemma_scan_from_bounds(s, i + 1, QuoteState::Double, drops);
                }
            },
            QuoteState::Single => {
                if c == '\'' {
                    lemma_scan_from_bounds(s, i + 1, QuoteState::Plain, d);
                } else {
                    lemma_scan_from_bounds(s, i + 1, QuoteState::Single, drops);
                }
            },
        }
    }
}

/// The scan of a non-empty input consumes at least one character and at
/// most all of them, and its positions are ascending and within the token.
pub proof fn lemma_scan_bounds(s: Seq<char>)
    ensures
        scan(s).1 <= s.len(),
        s.len() > 0 ==> 0 < scan(s).1,
        ordered_below(scan(s).0, scan(s).1),
{
    lemma_scan_from_bounds(s, 0, QuoteState::Plain, Seq::empty());
}

/// Positions as integers.
pub open spec fn positions(v: Seq<usize>) -> Seq<int> {
    v.map_values(|p: usize| p as int)
}

/// Scans the first token of `input`: returns the positions to drop from it,
/// in ascending order, and the offset at which the next token starts.
pub fn handle_args(input: &[char]) -> (r: (Vec<usize>, usize))
    ensures
        positions(r.0@) == scan(input@).0,
        r.1 as int == scan(input@).1,
{
    let mut remove: Vec<usize> = Vec::new();
    let mut q = QuoteState::Plain;
    let mut i: usize = 0;
    let n = input.len();
    assert(positions(remove@) =~= Seq::<int>::empty());
    while i < n
        invariant
            n == input@.len(),
            i <= n,
            scan(input@) == scan_from(input@, i as int, q, positions(remove@)),
        decreases n - i,
    {
        let c = input[i];
        proof {
            assert(positions(remove@.push(i)) =~= positions(remove@).push(i as int));
        }
        match q {
            QuoteState::Plain => {
                if c == ' ' || c == '\t' || c == '\r' {
                    remove.push(i);
                    return (remove, i + 1);
                } else if c == '\\' {
                    remove.push(i);
                    if i + 1 < n {
                        i = i + 2;
                    } else {
                        return (remove, n);
                    }
                } else if c == '"' {
                    remove.push(i);
                    q = QuoteState::Double;
                    i = i + 1;
                } else if c == '\'' {
                    remove.push(i);
                    q = QuoteState::Single;
                    i = i + 1;
                } else {
                    i = i + 1;
                }
            },
            QuoteState::Double => {
                if c == '"' {
                    remove.push(i);
                    q = QuoteState::Plain;
                    i = i + 1;
                } else if c == '\\' && i + 1 < n && (input[i + 1] == '\\' || input[i + 1] == '"') {
                    remove.push(i);
                    i = i + 2;
                } else {
                    i = i + 1;
                }
            },
            QuoteState::Single => {
                if c == '\'' {
                    remove.push(i);
                    q = QuoteState::Plain;
                }
                i = i + 1;
            },
        }
    }
    (remove, n)
}

} // verus!
