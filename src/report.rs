use vstd::prelude::*;
use vstd::string::StringExecFns;
use crate::command::{is_builtin_name, is_builtin_verb};
use crate::text::{push_char, same_text};

verus! {

/// The words joined by single spaces.
pub open spec fn join_words(words: Seq<Seq<char>>) -> Seq<char>
    decreases words.len(),
{
    if words.len() == 0 {
        Seq::empty()
    } else if words.len() == 1 {
        words[0]
    } else {
        join_words(words.drop_last()) + seq![' '] + words.last()
    }
}

/// The line that `echo` writes for these arguments.
pub fn echo_text(args: &Vec<String>) -> (r: String)
    ensures
        r@ == join_words(args.deep_view()) + seq!['\n'],
{
    let ghost words = args.deep_view();
    let mut r = String::new();
    let mut i: usize = 0;
    while i < args.len()
        invariant
            words == args.deep_view(),
            i <= words.len(),
            r@ == join_words(words.take(i as int)),
        decreases words.len() - i,
    {
        let ghost before = r@;
        if i > 0 {
            push_char(&mut r, ' ');
        }
        r.append(args[i].as_str());
        proof {
            let next = words.take(i + 1);
            assert(next.drop_last() =~= words.take(i as int));
            if i == 0 {
                assert(before =~= Seq::<char>::empty());
                assert(r@ =~= next[0]);
            } else {
                assert(r@ =~= join_words(next.drop_last()) + seq![' '] + next.last());
            }
        }
        i = i + 1;
    }
    assert(words.take(i as int) =~= words);
    push_char(&mut r, '\n');
    r
}

/// The line that `type` writes for `name`, where `found` is what a search of
/// the executable path gave for it.
pub open spec fn type_report(name: Seq<char>, found: Option<Seq<char>>) -> Seq<char> {
    if is_builtin_verb(name) {
        name + " is a shell builtin\n"@
    } else {
        match found {
            Some(path) => name + " is "@ + path + "\n"@,
            None => name + ": not found\n"@,
        }
    }
}

/// The line that `type` writes for `name`; `found` is what a search of the
/// executable path gave for it, and is not read for a builtin.
pub fn type_text(name: &str, found: Option<String>) -> (r: String)
    ensures
        r@ == type_report(name@, match found {
            Some(p) => Some(p@),
            None => None,
        }),
{
    let mut r = String::from_str(name);
    if is_builtin_name(name) {
        r.append(" is a shell builtin\n");
    } else {
        match found {
            Some(path) => {
                r.append(" is ");
                r.append(path.as_str());
                r.append("\n");
            },
            None => {
                r.append(": not found\n");
            },
        }
    }
    r
}

/// The line written for a program that the executable path does not hold.
pub fn not_found_text(name: &str) -> (r: String)
    ensures
        r@ == name@ + ": command not found\n"@,
{
    let mut r = String::from_str(name);
    r.append(": command not found\n");
    r
}

/// The line written when the working directory cannot change to `path`.
pub fn cd_failure_text(path: &str) -> (r: String)
    ensures
        r@ == "cd: "@ + path@ + ": No such file or directory\n"@,
{
    let mut r = String::from_str("cd: ");
    r.append(path);
    r.append(": No such file or directory\n");
    r
}

/// The directory `cd` goes to: the home directory for `~`, else `path`
/// itself. `None` where `path` is `~` and no home directory is known.
pub fn cd_target(path: &str, home: Option<String>) -> (r: Option<String>)
    ensures
        path@ == "~"@ ==> r == home,
        path@ != "~"@ ==> (r matches Some(t) && t@ == path@),
{
    if same_text(path, "~") {
        home
    } else {
        Some(String::from_str(path))
    }
}

} // verus!
