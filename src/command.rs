use vstd::prelude::*;
use crate::number::{parse_i32, parse_i32_text};
use crate::redirect::{
    dev_stderr, dev_stdout, extract, get_redirect_path, target_or, Redirection,
};
use crate::text::same_text;
use crate::tokenizer::{split_args, tokens};

verus! {

/// A command of one input line.
#[derive(Debug, PartialEq, Eq)]
pub enum Cmd {
    /// Leave the shell with this status.
    Exit(i32),
    /// Write these arguments.
    Echo(Vec<String>),
    /// Say what this name stands for.
    Type(String),
    /// Write the working directory.
    Pwd,
    /// Change the working directory.
    Cd(String),
    /// Write the contents of these files.
    Cat(Vec<String>),
    /// Run this program with these arguments.
    External(String, Vec<String>),
}

/// A command, with text as sequences of characters.
pub enum CmdModel {
    Exit(i32),
    Echo(Seq<Seq<char>>),
    Type(Seq<char>),
    Pwd,
    Cd(Seq<char>),
    Cat(Seq<Seq<char>>),
    External(Seq<char>, Seq<Seq<char>>),
}

impl View for Cmd {
    type V = CmdModel;

    open spec fn view(&self) -> CmdModel {
        match self {
            Cmd::Exit(code) => CmdModel::Exit(*code),
            Cmd::Echo(args) => CmdModel::Echo(args.deep_view()),
            Cmd::Type(name) => CmdModel::Type(name@),
            Cmd::Pwd => CmdModel::Pwd,
            Cmd::Cd(path) => CmdModel::Cd(path@),
            Cmd::Cat(paths) => CmdModel::Cat(paths.deep_view()),
            Cmd::External(name, args) => CmdModel::External(name@, args.deep_view()),
        }
    }
}

/// Why a token list names no command.
#[derive(Clone, Copy, Debug, PartialEq, Eq, Structural)]
pub enum CmdError {
    /// There was no token.
    EmptyCommand,
}

/// The names of the commands the shell runs itself.
pub open spec fn is_builtin_verb(name: Seq<char>) -> bool {
    ||| name == "exit"@
    ||| name == "echo"@
    ||| name == "type"@
    ||| name == "pwd"@
    ||| name == "cd"@
    ||| name == "cat"@
}

/// The exit status an `exit` with these arguments asks for: the first one
/// read as an `i32`, else 0.
pub open spec fn exit_code(rest: Seq<Seq<char>>) -> i32 {
    if rest.len() > 0 {
        match parse_i32(rest[0]) {
            Some(code) => code,
            None => 0,
        }
    } else {
        0
    }
}

/// The command that a non-empty argument list names: its first token picks
/// the command, the others are its arguments.
pub open spec fn command_of(argv: Seq<Seq<char>>) -> CmdModel {
    let verb = argv[0];
    let rest = argv.drop_first();
    if verb == "exit"@ {
        CmdModel::Exit(exit_code(rest))
    } else if verb == "echo"@ {
        CmdModel::Echo(rest)
    } else if verb == "type"@ {
        CmdModel::Type(if rest.len() > 0 { rest[0] } else { Seq::empty() })
    } else if verb == "pwd"@ {
        CmdModel::Pwd
    } else if verb == "cd"@ {
        CmdModel::Cd(if rest.len() > 0 { rest[0] } else { "~"@ })
    } else if verb == "cat"@ {
        CmdModel::Cat(rest)
    } else {
        CmdModel::External(verb, rest)
    }
}

/// Whether the shell runs a command of this name itself.
pub fn is_builtin_name(name: &str) -> (r: bool)
    ensures
        r == is_builtin_verb(name@),
{
    same_text(name, "exit") || same_text(name, "echo") || same_text(name, "type")
        || same_text(name, "pwd") || same_text(name, "cd") || same_text(name, "cat")
}

/// Copies of the strings of `v` from index `from` on.
fn tail_of(v: &Vec<String>, from: usize) -> (r: Vec<String>)
    requires
        from <= v@.len(),
    ensures
        r.deep_view() == v.deep_view().subrange(from as int, v@.len() as int),
{
    let mut r: Vec<String> = Vec::new();
    let mut i: usize = from;
    while i < v.len()
        invariant
            from <= i <= v@.len(),
            r.deep_view() == v.deep_view().subrange(from as int, i as int),
        decreases v@.len() - i,
    {
        let ghost before = r.deep_view();
        let t = v[i].clone();
        assert(t@ == v.deep_view()[i as int]);
        r.push(t);
        assert(r.deep_view() =~= before.push(t@));
        assert(r.deep_view() =~= v.deep_view().subrange(from as int, i + 1));
        i = i + 1;
    }
    r
}

impl Cmd {
    /// Whether the shell runs this command itself.
    pub fn is_builtin(&self) -> (r: bool)
        ensures
            r == !(self is External),
    {
        !matches!(self, Cmd::External(_, _))
    }

    /// The command that `args` names; fails on an empty list.
    pub fn classify(args: Vec<String>) -> (r: Result<Cmd, CmdError>)
        ensures
            args@.len() == 0 <==> r is Err,
            r is Err ==> r == Err::<Cmd, CmdError>(CmdError::EmptyCommand),
            r is Ok ==> r->Ok_0@ == command_of(args.deep_view()),
    {
        if args.len() == 0 {
            return Err(CmdError::EmptyCommand);
        }
        let ghost argv = args.deep_view();
        let verb = args[0].as_str();
        assert(argv.drop_first() =~= argv.subrange(1, argv.len() as int));
        if same_text(verb, "exit") {
            let code = if args.len() > 1 {
                match parse_i32_text(args[1].as_str()) {
                    Some(c) => c,
                    None => 0,
                }
            } else {
                0
            };
            Ok(Cmd::Exit(code))
        } else if same_text(verb, "echo") {
            Ok(Cmd::Echo(tail_of(&args, 1)))
        } else if same_text(verb, "type") {
            let name = if args.len() > 1 {
                args[1].clone()
            } else {
                String::new()
            };
            Ok(Cmd::Type(name))
        } else if same_text(verb, "pwd") {
            Ok(Cmd::Pwd)
        } else if same_text(verb, "cd") {
            let path = if args.len() > 1 {
                args[1].clone()
            } else {
                String::from_str("~")
            };
            Ok(Cmd::Cd(path))
        } else if same_text(verb, "cat") {
            Ok(Cmd::Cat(tail_of(&args, 1)))
        } else {
            Ok(Cmd::External(args[0].clone(), tail_of(&args, 1)))
        }
    }
}

/// Reads one input line: splits it into tokens, takes out the redirections,
/// and names the command that the remaining tokens give. Fails where no token
/// remains.
pub fn parse_line(line: &str) -> (r: Result<(Redirection, Cmd), CmdError>)
    ensures
        extract(tokens(line@)).argv.len() == 0 <==> r is Err,
        r is Err ==> r == Err::<(Redirection, Cmd), CmdError>(CmdError::EmptyCommand),
        r matches Ok((red, cmd)) ==> {
            &&& cmd@ == command_of(extract(tokens(line@)).argv)
            &&& red.std_out.model() == target_or(extract(tokens(line@)).out, dev_stdout())
            &&& red.std_err.model() == target_or(extract(tokens(line@)).err, dev_stderr())
        },
{
    let (red, argv) = get_redirect_path(split_args(line));
    match Cmd::classify(argv) {
        Ok(cmd) => Ok((red, cmd)),
        Err(e) => Err(e),
    }
}

} // verus!
