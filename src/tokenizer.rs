use vstd::prelude::*;
use vstd::slice::slice_subrange;
use crate::cleaner::{clean, remove_unwanted};
use crate::scanner::{handle_args, lemma_scan_bounds, positions, scan};
use crate::text::chars_of;

verus! {

/// Where the tokenizer stands after consuming one token's span from `start`.
pub open spec fn step_end(s: Seq<char>, start: int) -> int {
    start + scan(s.subrange(start, s.len() as int)).1
}

/// The text of the token whose span begins at `start`.
pub open spec fn step_token(s: Seq<char>, start: int) -> Seq<char> {
    let rest = s.subrange(start, s.len() as int);
    let (drops, end) = scan(rest);
    clean(rest.subrange(0, end), drops)
}

/// The tokens of `s` from offset `start` on; spans that clean to nothing
/// yield no token.
pub open spec fn tokens_from(s: Seq<char>, start: int) -> Seq<Seq<char>>
    decreases s.len() - start,
{
    if start < 0 || start >= s.len() {
        Seq::empty()
    } else if step_end(s, start) <= start || step_end(s, start) > s.len() {
        // a scan of non-empty text always moves on, and stays within it
        Seq::empty()
    } else if step_token(s, start).len() == 0 {
        tokens_from(s, step_end(s, start))
    } else {
        seq![step_token(s, start)] + tokens_from(s, step_end(s, start))
    }
}

/// The lengths of the spans consumed from offset `start` on, one per step.
pub open spec fn spans_from(s: Seq<char>, start: int) -> Seq<int>
    decreases s.len() - start,
{
    if start < 0 || start >= s.len() {
        Seq::empty()
    } else {
        let e = step_end(s, start);
        if e <= start || e > s.len() {
            Seq::empty()
        } else {
            seq![e - start] + spans_from(s, e)
        }
    }
}

/// The tokens of a whole line.
pub open spec fn tokens(s: Seq<char>) -> Seq<Seq<char>> {
    tokens_from(s, 0)
}

/// The lengths of the spans the tokenizer consumes over a whole line.
pub open spec fn spans(s: Seq<char>) -> Seq<int> {
    spans_from(s, 0)
}

/// The sum of a sequence of integers.
pub open spec fn total(xs: Seq<int>) -> int
    decreases xs.len(),
{
    if xs.len() == 0 {
        0
    } else {
        xs[0] + total(xs.drop_first())
    }
}

/// One step moves forward and stays within the text.
pub proof fn lemma_step_bounds(s: Seq<char>, start: int)
    requires
        0 <= start < s.len(),
    ensures
        start < step_end(s, start) <= s.len(),
{
    lemma_scan_bounds(s.subrange(start, s.len() as int));
}

proof fn lemma_spans_from(s: Seq<char>, start: int)
    requires
        0 <= start <= s.len(),
    ensures
        total(spans_from(s, start)) == s.len() - start,
        forall|k: int| 0 <= k < spans_from(s, start).len() ==> #[trigger] spans_from(s, start)[k] >= 1,
    decreases s.len() - start,
{
    if start < s.len() {
        lemma_step_bounds(s, start);
        let e = step_end(s, start);
        lemma_spans_from(s, e);
        let sp = spans_from(s, start);
        assert(sp.drop_first() =~= spans_from(s, e));
        assert forall|k: int| 0 <= k < sp.len() implies #[trigger] sp[k] >= 1 by {
            if k > 0 {
                assert(sp[k] == spans_from(s, e)[k - 1]);
            }
        }
    }
}

/// The spans the tokenizer consumes over a line are each at least one
/// character long, and together they are exactly as long as the line.
pub proof fn lemma_spans_cover_line(s: Seq<char>)
    ensures
        total(spans(s)) == s.len(),
        forall|k: int| 0 <= k < spans(s).len() ==> #[trigger] spans(s)[k] >= 1,
{
    lemma_spans_from(s, 0);
}

proof fn lemma_tokens_from_nonempty(s: Seq<char>, start: int)
    requires
        0 <= start <= s.len(),
    ensures
        forall|k: int| 0 <= k < tokens_from(s, start).len() ==> #[trigger] tokens_from(s, start)[k].len() > 0,
    decreases s.len() - start,
{
    if start < s.len() {
        lemma_step_bounds(s, start);
        let e = step_end(s, start);
        lemma_tokens_from_nonempty(s, e);
        let ts = tokens_from(s, start);
        if step_token(s, start).len() != 0 {
            assert forall|k: int| 0 <= k < ts.len() implies #[trigger] ts[k].len() > 0 by {
                if k > 0 {
                    assert(ts[k] == tokens_from(s, e)[k - 1]);
                }
            }
        }
    }
}

/// No token of a line is empty.
pub proof fn lemma_tokens_nonempty(s: Seq<char>)
    ensures
        forall|k: int| 0 <= k < tokens(s).len() ==> #[trigger] tokens(s)[k].len() > 0,
{
    lemma_tokens_from_nonempty(s, 0);
}

/// A cursor over the tokens of one line.
pub struct IterArgs {
    whole: Vec<char>,
    start: usize,
}

impl View for IterArgs {
    /// The line, and the offset where the next token's span begins.
    type V = (Seq<char>, int);

    closed spec fn view(&self) -> (Seq<char>, int) {
        (self.whole@, self.start as int)
    }
}

impl IterArgs {
    /// The cursor stands within the line.
    pub open spec fn wf(&self) -> bool {
        0 <= self@.1 <= self@.0.len()
    }

    /// The tokens not yet handed out.
    pub open spec fn pending(&self) -> Seq<Seq<char>> {
        tokens_from(self@.0, self@.1)
    }

    /// A cursor at the start of `value`.
    pub fn new(value: &str) -> (r: Self)
        ensures
            r.wf(),
            r@ == (value@, 0int),
            r.pending() == tokens(value@),
    {
        IterArgs { whole: chars_of(value), start: 0 }
    }

    /// Hands out the next token, or `None` once the line is used up.
    pub fn next(&mut self) -> (r: Option<String>)
        requires
            old(self).wf(),
        ensures
            final(self).wf(),
            final(self)@.0 == old(self)@.0,
            old(self).pending().len() == 0 ==> r is None && final(self).pending().len() == 0,
            old(self).pending().len() > 0 ==> r is Some && r->0@ == old(self).pending()[0]
                && final(self).pending() == old(self).pending().drop_first(),
            r is None ==> final(self)@.1 == final(self)@.0.len(),
            r is Some ==> final(self)@.1 > old(self)@.1,
            r matches Some(t) ==> t@.len() > 0,
    {
        let ghost s = self.whole@;
        let n = self.whole.len();
        while self.start < n
            invariant
                self.whole@ == s,
                s == old(self)@.0,
                old(self)@.1 <= self.start,
                n == s.len(),
                self.start <= n,
                tokens_from(s, self.start as int) == old(self).pending(),
            decreases n - self.start,
        {
            let ghost st = self.start as int;
            let input = slice_subrange(self.whole.as_slice(), self.start, n);
            let (rm, end) = handle_args(input);
            proof {
                lemma_step_bounds(s, st);
                lemma_scan_bounds(input@);
            }
            let got = remove_unwanted(slice_subrange(input, 0, end), rm);
            assert(got@ == step_token(s, st));
            self.start = self.start + end;
            if !got.as_str().is_empty() {
                return Some(got);
            }
        }
        None
    }
}

/// All the tokens of `line`, in order.
pub fn split_args(line: &str) -> (r: Vec<String>)
    ensures
        r.deep_view() == tokens(line@),
{
    let mut it = IterArgs::new(line);
    let mut r: Vec<String> = Vec::new();
    loop
        invariant
            it.wf(),
            it@.0 == line@,
            r.deep_view() + it.pending() == tokens(line@),
        ensures
            r.deep_view() == tokens(line@),
        decreases it@.0.len() - it@.1,
    {
        let ghost before = it.pending();
        let ghost done = r.deep_view();
        match it.next() {
            Some(t) => {
                r.push(t);
                assert(r.deep_view() =~= done.push(t@));
                assert(done.push(t@) + it.pending() =~= done + before);
            },
            None => {
                assert(r.deep_view() + it.pending() =~= r.deep_view());
                break;
            },
        }
    }
    r
}

} // verus!
