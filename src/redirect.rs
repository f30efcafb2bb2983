use vstd::prelude::*;
use crate::text::same_text;

verus! {

/// How a redirection target is opened.
#[derive(Clone, Copy, Debug, PartialEq, Eq, Structural)]
pub enum RedirOps {
    /// Discard what the file held.
    Truncate,
    /// Write after what the file holds.
    Append,
}

/// The output stream an operator redirects.
#[derive(Clone, Copy, Debug, PartialEq, Eq, Structural)]
pub enum Stream {
    Stdout,
    Stderr,
}

/// The stream and mode of a redirection operator, or `None` for any other token.
pub open spec fn operator(t: Seq<char>) -> Option<(Stream, RedirOps)> {
    if t == seq!['>'] || t == seq!['1', '>'] {
        Some((Stream::Stdout, RedirOps::Truncate))
    } else if t == seq!['>', '>'] || t == seq!['1', '>', '>'] {
        Some((Stream::Stdout, RedirOps::Append))
    } else if t == seq!['2', '>'] {
        Some((Stream::Stderr, RedirOps::Truncate))
    } else if t == seq!['2', '>', '>'] {
        Some((Stream::Stderr, RedirOps::Append))
    } else {
        None
    }
}

/// The stream and mode of the redirection operator `t`, or `None` for any
/// other token.
pub fn redir_operator(t: &str) -> (r: Option<(Stream, RedirOps)>)
    ensures
        r == operator(t@),
{
    proof {
        reveal_strlit(">");
        reveal_strlit("1>");
        reveal_strlit(">>");
        reveal_strlit("1>>");
        reveal_strlit("2>");
        reveal_strlit("2>>");
        assert(">"@ =~= seq!['>']);
        assert("1>"@ =~= seq!['1', '>']);
        assert(">>"@ =~= seq!['>', '>']);
        assert("1>>"@ =~= seq!['1', '>', '>']);
        assert("2>"@ =~= seq!['2', '>']);
        assert("2>>"@ =~= seq!['2', '>', '>']);
    }
    if same_text(t, ">") || same_text(t, "1>") {
        Some((Stream::Stdout, RedirOps::Truncate))
    } else if same_text(t, ">>") || same_text(t, "1>>") {
        Some((Stream::Stdout, RedirOps::Append))
    } else if same_text(t, "2>") {
        Some((Stream::Stderr, RedirOps::Truncate))
    } else if same_text(t, "2>>") {
        Some((Stream::Stderr, RedirOps::Append))
    } else {
        None
    }
}

/// What the extraction has found so far: the target and mode of each stream,
/// once set, and the tokens that are arguments.
pub struct Extracted {
    pub out: Option<(Seq<char>, RedirOps)>,
    pub err: Option<(Seq<char>, RedirOps)>,
    pub argv: Seq<Seq<char>>,
}

/// `e` with `target` set for `stream`, unless that stream was already set.
pub open spec fn set_first(e: Extracted, stream: Stream, target: Seq<char>, mode: RedirOps) -> Extracted {
    match stream {
        Stream::Stdout => if e.out is None {
            Extracted { out: Some((target, mode)), ..e }
        } else {
            e
        },
        Stream::Stderr => if e.err is None {
            Extracted { err: Some((target, mode)), ..e }
        } else {
            e
        },
    }
}

/// The extraction over `toks` continued from index `i`: an operator takes
/// the token after it as its target, and the first target per stream wins;
/// an operator with nothing after it sets nothing; other tokens are arguments.
pub open spec fn extract_from(toks: Seq<Seq<char>>, i: int, e: Extracted) -> Extracted
    decreases toks.len() - i,
{
    if i < 0 || i >= toks.len() {
        e
    } else {
        match operator(toks[i]) {
            None => extract_from(toks, i + 1, Extracted { argv: e.argv.push(toks[i]), ..e }),
            Some((stream, mode)) => if i + 1 < toks.len() {
                extract_from(toks, i + 2, set_first(e, stream, toks[i + 1], mode))
            } else {
                e
            },
        }
    }
}

/// The extraction over a whole token list.
pub open spec fn extract(toks: Seq<Seq<char>>) -> Extracted {
    extract_from(toks, 0, Extracted { out: None, err: None, argv: Seq::empty() })
}

/// The path of the shell's own standard output.
pub open spec fn dev_stdout() -> Seq<char> {
    seq!['/', 'd', 'e', 'v', '/', 's', 't', 'd', 'o', 'u', 't']
}

/// The path of the shell's own standard error.
pub open spec fn dev_stderr() -> Seq<char> {
    seq!['/', 'd', 'e', 'v', '/', 's', 't', 'd', 'e', 'r', 'r']
}

/// The target of a stream, once set, stays to the end of the extraction:
/// later operators for the same stream change nothing.
pub proof fn lemma_target_kept(toks: Seq<Seq<char>>, i: int, e: Extracted)
    ensures
        e.out is Some ==> extract_from(toks, i, e).out == e.out,
        e.err is Some ==> extract_from(toks, i, e).err == e.err,
    decreases toks.len() - i,
{
    if 0 <= i < toks.len() {
        match operator(toks[i]) {
            None => lemma_target_kept(toks, i + 1, Extracted { argv: e.argv.push(toks[i]), ..e }),
            Some((stream, mode)) => if i + 1 < toks.len() {
                lemma_target_kept(toks, i + 2, set_first(e, stream, toks[i + 1], mode));
            },
        }
    }
}

/// Tokens that are no operators only add to the arguments.
proof fn lemma_plain_run(toks: Seq<Seq<char>>, i: int, stop: int, e: Extracted)
    requires
        0 <= i <= stop <= toks.len(),
        forall|j: int| i <= j < stop ==> operator(#[trigger] toks[j]) is None,
    ensures
        extract_from(toks, i, e) == extract_from(
            toks,
            stop,
            Extracted { argv: e.argv + toks.subrange(i, stop), ..e },
        ),
    decreases stop - i,
{
    if i == stop {
        assert(e.argv + toks.subrange(i, stop) =~= e.argv);
    } else {
        let e2 = Extracted { argv: e.argv.push(toks[i]), ..e };
        lemma_plain_run(toks, i + 1, stop, e2);
        assert(e2.argv + toks.subrange(i + 1, stop) =~= e.argv + toks.subrange(i, stop));
    }
}

/// The first redirection operator of a line sets its stream to the token
/// after it, whatever follows; the tokens before it stay arguments.
pub proof fn lemma_first_operator_wins(
    pre: Seq<Seq<char>>,
    op: Seq<char>,
    target: Seq<char>,
    rest: Seq<Seq<char>>,
)
    requires
        forall|j: int| 0 <= j < pre.len() ==> operator(#[trigger] pre[j]) is None,
        operator(op) is Some,
    ensures
        ({
            let r = extract(pre + seq![op, target] + rest);
            let (stream, mode) = operator(op)->0;
            &&& stream == Stream::Stdout ==> r.out == Some((target, mode))
            &&& stream == Stream::Stderr ==> r.err == Some((target, mode))
            &&& r.argv.take(pre.len() as int) == pre
        }),
{
    let toks = pre + seq![op, target] + rest;
    let n = pre.len() as int;
    let e0 = Extracted { out: None, err: None, argv: Seq::empty() };
    assert forall|j: int| 0 <= j < n implies operator(#[trigger] toks[j]) is None by {
        assert(toks[j] == pre[j]);
    }
    lemma_plain_run(toks, 0, n, e0);
    let e1 = Extracted { argv: e0.argv + toks.subrange(0, n), ..e0 };
    assert(e1.argv =~= pre);
    assert(toks[n] == op);
    assert(toks[n + 1] == target);
    let (stream, mode) = operator(op)->0;
    let e2 = set_first(e1, stream, target, mode);
    assert(extract(toks) == extract_from(toks, n + 2, e2));
    lemma_target_kept(toks, n + 2, e2);
    lemma_argv_grows(toks, n + 2, e2);
}

/// The arguments found so far stay in front.
proof fn lemma_argv_grows(toks: Seq<Seq<char>>, i: int, e: Extracted)
    ensures
        extract_from(toks, i, e).argv.take(e.argv.len() as int) == e.argv,
        extract_from(toks, i, e).argv.len() >= e.argv.len(),
    decreases toks.len() - i,
{
    if 0 <= i < toks.len() {
        match operator(toks[i]) {
            None => {
                let e2 = Extracted { argv: e.argv.push(toks[i]), ..e };
                lemma_argv_grows(toks, i + 1, e2);
                let r = extract_from(toks, i + 1, e2).argv;
                assert(r.take(e.argv.len() as int) =~= r.take(e2.argv.len() as int).take(e.argv.len() as int));
                assert(e2.argv.take(e.argv.len() as int) =~= e.argv);
            },
            Some((stream, mode)) => if i + 1 < toks.len() {
                lemma_argv_grows(toks, i + 2, set_first(e, stream, toks[i + 1], mode));
            } else {
                assert(e.argv.take(e.argv.len() as int) =~= e.argv);
            },
        }
    } else {
        assert(e.argv.take(e.argv.len() as int) =~= e.argv);
    }
}

/// Where one output stream goes.
#[derive(Debug)]
pub struct RedirectPath {
    pub path: String,
    pub ops: RedirOps,
}

impl RedirectPath {
    /// The shell's own standard output, appended to.
    pub fn default_stdout() -> (r: Self)
        ensures
            r.path@ == dev_stdout(),
            r.ops == RedirOps::Append,
    {
        proof {
            reveal_strlit("/dev/stdout");
        }
        RedirectPath { path: String::from_str("/dev/stdout"), ops: RedirOps::Append }
    }

    /// The shell's own standard error, appended to.
    pub fn default_stderr() -> (r: Self)
        ensures
            r.path@ == dev_stderr(),
            r.ops == RedirOps::Append,
    {
        proof {
            reveal_strlit("/dev/stderr");
        }
        RedirectPath { path: String::from_str("/dev/stderr"), ops: RedirOps::Append }
    }
}

/// Where standard output and standard error of a command go.
#[derive(Debug)]
pub struct Redirection {
    pub std_out: RedirectPath,
    pub std_err: RedirectPath,
}

impl RedirectPath {
    /// The target and mode this path stands for.
    pub open spec fn model(&self) -> (Seq<char>, RedirOps) {
        (self.path@, self.ops)
    }
}

/// The target a slot found, or `default` appended to when it found none.
pub open spec fn target_or(slot: Option<(Seq<char>, RedirOps)>, default: Seq<char>) -> (Seq<char>, RedirOps) {
    match slot {
        Some(t) => t,
        None => (default, RedirOps::Append),
    }
}

impl Default for Redirection {
    /// Both streams to the shell's own.
    fn default() -> (r: Self)
        ensures
            r.std_out.model() == (dev_stdout(), RedirOps::Append),
            r.std_err.model() == (dev_stderr(), RedirOps::Append),
    {
        Redirection { std_out: RedirectPath::default_stdout(), std_err: RedirectPath::default_stderr() }
    }
}

/// What a slot of the loop in `get_redirect_path` stands for.
pub open spec fn slot_model(p: Option<RedirectPath>) -> Option<(Seq<char>, RedirOps)> {
    match p {
        Some(rp) => Some(rp.model()),
        None => None,
    }
}

/// Splits `args` into where standard output and standard error go and the
/// arguments that remain. An operator (`>`, `1>`, `>>`, `1>>`, `2>`, `2>>`)
/// takes the next token as its target; the first target for a stream wins,
/// later operators for it are dropped with their targets. A stream with no
/// target goes to the shell's own, appended to.
pub fn get_redirect_path(args: Vec<String>) -> (r: (Redirection, Vec<String>))
    ensures
        r.0.std_out.model() == target_or(extract(args.deep_view()).out, dev_stdout()),
        r.0.std_err.model() == target_or(extract(args.deep_view()).err, dev_stderr()),
        r.1.deep_view() == extract(args.deep_view()).argv,
{
    let ghost toks = args.deep_view();
    let mut argv: Vec<String> = Vec::new();
    let mut out: Option<RedirectPath> = None;
    let mut err: Option<RedirectPath> = None;
    let n = args.len();
    let mut i: usize = 0;
    assert(argv.deep_view() =~= Seq::<Seq<char>>::empty());
    while i < n
        invariant
            toks == args.deep_view(),
            n == toks.len(),
            i <= n,
            extract(toks) == extract_from(
                toks,
                i as int,
                Extracted { out: slot_model(out), err: slot_model(err), argv: argv.deep_view() },
            ),
        decreases n - i,
    {
        let ghost before = argv.deep_view();
        match redir_operator(args[i].as_str()) {
            None => {
                argv.push(args[i].clone());
                assert(argv.deep_view() =~= before.push(toks[i as int]));
                i = i + 1;
            },
            Some((stream, mode)) => {
                if i + 1 < n {
                    let target = args[i + 1].clone();
                    match stream {
                        Stream::Stdout => {
                            if out.is_none() {
                                out = Some(RedirectPath { path: target, ops: mode });
                            }
                        },
                        Stream::Stderr => {
                            if err.is_none() {
                                err = Some(RedirectPath { path: target, ops: mode });
                            }
                        },
                    }
                    i = i + 2;
                } else {
                    i = i + 1;
                }
            },
        }
    }
    let std_out = match out {
        Some(p) => p,
        None => RedirectPath::default_stdout(),
    };
    let std_err = match err {
        Some(p) => p,
        None => RedirectPath::default_stderr(),
    };
    (Redirection { std_out, std_err }, argv)
}

} // verus!
