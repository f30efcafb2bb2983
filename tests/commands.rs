use shell_core::command::{is_builtin_name, parse_line, Cmd, CmdError};
use shell_core::number::parse_i32_text;
use shell_core::redirect::{get_redirect_path, redir_operator, RedirOps, RedirectPath, Redirection, Stream};

fn strings(v: &[&str]) -> Vec<String> {
    v.iter().map(|s| s.to_string()).collect()
}

fn cmd_of(line: &str) -> Cmd {
    parse_line(line).unwrap().1
}

#[test]
fn first_stdout_target_wins() {
    let (red, argv) = get_redirect_path(strings(&["echo", "hi", ">", "out.txt", ">>", "out2.txt"]));
    assert_eq!(argv, strings(&["echo", "hi"]));
    assert_eq!(red.std_out.path, "out.txt");
    assert_eq!(red.std_out.ops, RedirOps::Truncate);
    assert_eq!(red.std_err.path, "/dev/stderr");
    assert_eq!(red.std_err.ops, RedirOps::Append);
}

#[test]
fn every_operator_form() {
    let (red, argv) = get_redirect_path(strings(&["ls", "1>", "a", "2>>", "b"]));
    assert_eq!(argv, strings(&["ls"]));
    assert_eq!((red.std_out.path.as_str(), red.std_out.ops), ("a", RedirOps::Truncate));
    assert_eq!((red.std_err.path.as_str(), red.std_err.ops), ("b", RedirOps::Append));

    let (red, argv) = get_redirect_path(strings(&["ls", ">>", "a", "x", "2>", "b"]));
    assert_eq!(argv, strings(&["ls", "x"]));
    assert_eq!((red.std_out.path.as_str(), red.std_out.ops), ("a", RedirOps::Append));
    assert_eq!((red.std_err.path.as_str(), red.std_err.ops), ("b", RedirOps::Truncate));

    let (red, _) = get_redirect_path(strings(&["ls", "1>>", "a"]));
    assert_eq!((red.std_out.path.as_str(), red.std_out.ops), ("a", RedirOps::Append));
}

#[test]
fn later_stderr_operator_is_dropped_with_its_target() {
    let (red, argv) = get_redirect_path(strings(&["x", "2>", "e1", "y", "2>>", "e2", "z"]));
    assert_eq!(argv, strings(&["x", "y", "z"]));
    assert_eq!((red.std_err.path.as_str(), red.std_err.ops), ("e1", RedirOps::Truncate));
    assert_eq!(red.std_out.path, "/dev/stdout");
}

#[test]
fn operator_without_target_sets_nothing() {
    let (red, argv) = get_redirect_path(strings(&["echo", "a", ">"]));
    assert_eq!(argv, strings(&["echo", "a"]));
    assert_eq!((red.std_out.path.as_str(), red.std_out.ops), ("/dev/stdout", RedirOps::Append));
}

#[test]
fn no_operator_keeps_defaults() {
    let (red, argv) = get_redirect_path(strings(&["a", ">x", "2", "b"]));
    assert_eq!(argv, strings(&["a", ">x", "2", "b"]));
    assert_eq!(red.std_out.path, "/dev/stdout");
    assert_eq!(red.std_err.path, "/dev/stderr");
    let (red, argv) = get_redirect_path(Vec::new());
    assert!(argv.is_empty());
    assert_eq!(red.std_out.ops, RedirOps::Append);
}

#[test]
fn operator_names() {
    assert_eq!(redir_operator(">"), Some((Stream::Stdout, RedirOps::Truncate)));
    assert_eq!(redir_operator("1>"), Some((Stream::Stdout, RedirOps::Truncate)));
    assert_eq!(redir_operator(">>"), Some((Stream::Stdout, RedirOps::Append)));
    assert_eq!(redir_operator("1>>"), Some((Stream::Stdout, RedirOps::Append)));
    assert_eq!(redir_operator("2>"), Some((Stream::Stderr, RedirOps::Truncate)));
    assert_eq!(redir_operator("2>>"), Some((Stream::Stderr, RedirOps::Append)));
    assert_eq!(redir_operator("3>"), None);
    assert_eq!(redir_operator(">>>"), None);
}

#[test]
fn default_paths() {
    let out = RedirectPath::default_stdout();
    assert_eq!((out.path.as_str(), out.ops), ("/dev/stdout", RedirOps::Append));
    let err = RedirectPath::default_stderr();
    assert_eq!((err.path.as_str(), err.ops), ("/dev/stderr", RedirOps::Append));
    let red = Redirection::default();
    assert_eq!(red.std_out.path, "/dev/stdout");
    assert_eq!(red.std_err.path, "/dev/stderr");
}

#[test]
fn echo_line_with_quoted_tail() {
    assert_eq!(
        cmd_of("echo hello   world'hii'"),
        Cmd::Echo(strings(&["hello", "worldhii"]))
    );
    assert_eq!(cmd_of("echo hello   world 'hii'"), Cmd::Echo(strings(&["hello", "world", "hii"])));
}

#[test]
fn cd_line() {
    assert_eq!(cmd_of("cd   tmp/"), Cmd::Cd("tmp/".to_string()));
    assert_eq!(cmd_of("cd"), Cmd::Cd("~".to_string()));
}

#[test]
fn exit_line() {
    assert_eq!(cmd_of("exit 100"), Cmd::Exit(100));
    assert_eq!(cmd_of("exit"), Cmd::Exit(0));
    assert_eq!(cmd_of("exit abc"), Cmd::Exit(0));
    assert_eq!(cmd_of("exit -3 more"), Cmd::Exit(-3));
    assert_eq!(cmd_of("exit 2147483648"), Cmd::Exit(0));
}

#[test]
fn unknown_program_line() {
    assert_eq!(
        cmd_of("my-cmd tmp/ hello.txt 'arg    1'"),
        Cmd::External("my-cmd".to_string(), strings(&["tmp/", "hello.txt", "arg    1"]))
    );
}

#[test]
fn cat_line_keeps_quotes_and_spaces() {
    assert_eq!(
        cmd_of("cat '/tmp/foo/\"f 50\"' '/tmp/foo/f67'"),
        Cmd::Cat(strings(&["/tmp/foo/\"f 50\"", "/tmp/foo/f67"]))
    );
}

#[test]
fn other_verbs() {
    assert_eq!(cmd_of("pwd extra"), Cmd::Pwd);
    assert_eq!(cmd_of("type echo"), Cmd::Type("echo".to_string()));
    assert_eq!(cmd_of("type"), Cmd::Type(String::new()));
    assert_eq!(cmd_of("'echo' a"), Cmd::Echo(strings(&["a"])));
    assert_eq!(cmd_of("Echo a"), Cmd::External("Echo".to_string(), strings(&["a"])));
}

#[test]
fn line_with_redirection() {
    let (red, cmd) = parse_line("echo a 2>> err.log b > out").unwrap();
    assert_eq!(cmd, Cmd::Echo(strings(&["a", "b"])));
    assert_eq!((red.std_out.path.as_str(), red.std_out.ops), ("out", RedirOps::Truncate));
    assert_eq!((red.std_err.path.as_str(), red.std_err.ops), ("err.log", RedirOps::Append));
}

#[test]
fn empty_command_is_an_error() {
    assert!(matches!(parse_line(""), Err(CmdError::EmptyCommand)));
    assert!(matches!(parse_line("   "), Err(CmdError::EmptyCommand)));
    assert!(matches!(parse_line("> out"), Err(CmdError::EmptyCommand)));
    assert_eq!(Cmd::classify(Vec::new()), Err(CmdError::EmptyCommand));
}

#[test]
fn builtins() {
    for name in ["exit", "echo", "type", "pwd", "cd", "cat"] {
        assert!(is_builtin_name(name));
    }
    assert!(!is_builtin_name("ls"));
    assert!(!is_builtin_name(""));
    assert!(Cmd::Pwd.is_builtin());
    assert!(Cmd::Cat(vec![]).is_builtin());
    assert!(!Cmd::External("ls".to_string(), vec![]).is_builtin());
}

#[test]
fn integer_text() {
    assert_eq!(parse_i32_text("0"), Some(0));
    assert_eq!(parse_i32_text("+7"), Some(7));
    assert_eq!(parse_i32_text("-0"), Some(0));
    assert_eq!(parse_i32_text("2147483647"), Some(2147483647));
    assert_eq!(parse_i32_text("-2147483648"), Some(-2147483648));
    assert_eq!(parse_i32_text("2147483648"), None);
    assert_eq!(parse_i32_text("-2147483649"), None);
    assert_eq!(parse_i32_text("99999999999999999999"), None);
    assert_eq!(parse_i32_text(""), None);
    assert_eq!(parse_i32_text("-"), None);
    assert_eq!(parse_i32_text("+"), None);
    assert_eq!(parse_i32_text("1a"), None);
    assert_eq!(parse_i32_text(" 1"), None);
    assert_eq!(parse_i32_text("--1"), None);
}
