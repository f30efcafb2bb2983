use vstd::prelude::*;
use crate::text::{chars_of, push_char};

verus! {

/// The pieces of `s` between occurrences of `sep`, in order; `s` without
/// `sep` is one piece, and an empty `s` is one empty piece.
pub open spec fn split_on(s: Seq<char>, sep: char) -> Seq<Seq<char>>
    decreases s.len(),
{
    if s.len() == 0 {
        seq![Seq::empty()]
    } else {
        let p = split_on(s.drop_last(), sep);
        if s.last() == sep {
            p.push(Seq::empty())
        } else {
            p.update(p.len() - 1, p.last().push(s.last()))
        }
    }
}

/// The directories that a `PATH` value lists, in the order they are
/// searched: the pieces between colons.
pub fn path_dirs(path_var: &str) -> (r: Vec<String>)
    ensures
        r.deep_view() == split_on(path_var@, ':'),
{
    let cs = chars_of(path_var);
    let mut done: Vec<String> = Vec::new();
    let mut cur = String::new();
    let mut i: usize = 0;
    assert(cs@.take(0) =~= Seq::<char>::empty());
    assert(done.deep_view().push(cur@) =~= seq![Seq::<char>::empty()]);
    while i < cs.len()
        invariant
            cs@ == path_var@,
            i <= cs@.len(),
            split_on(cs@.take(i as int), ':') == done.deep_view().push(cur@),
        decreases cs@.len() - i,
    {
        let c = cs[i];
        let ghost prev = done.deep_view();
        let ghost prev_cur = cur@;
        proof {
            assert(cs@.take(i + 1).drop_last() =~= cs@.take(i as int));
            assert(cs@.take(i + 1).last() == c);
        }
        if c == ':' {
            done.push(cur);
            cur = String::new();
            assert(done.deep_view() =~= prev.push(prev_cur));
            assert(done.deep_view().push(cur@) =~= prev.push(prev_cur).push(Seq::empty()));
        } else {
            push_char(&mut cur, c);
            assert(done.deep_view().push(cur@) =~= prev.push(prev_cur).update(prev.len() as int, prev_cur.push(c)));
        }
        i = i + 1;
    }
    assert(cs@.take(i as int) =~= cs@);
    done.push(cur);
    done
}

} // verus!
