use shell_core::report::{cd_failure_text, cd_target, echo_text, not_found_text, type_text};
use shell_core::search::path_dirs;

fn strings(v: &[&str]) -> Vec<String> {
    v.iter().map(|s| s.to_string()).collect()
}

#[test]
fn echo_joins_with_spaces() {
    assert_eq!(echo_text(&strings(&["hello", "world", "hii"])), "hello world hii\n");
    assert_eq!(echo_text(&strings(&["a  b"])), "a  b\n");
    assert_eq!(echo_text(&Vec::new()), "\n");
    assert_eq!(echo_text(&strings(&["", "x"])), " x\n");
}

#[test]
fn type_reports() {
    assert_eq!(type_text("cd", None), "cd is a shell builtin\n");
    assert_eq!(type_text("exit", Some("/bin/exit".to_string())), "exit is a shell builtin\n");
    assert_eq!(type_text("ls", Some("/bin/ls".to_string())), "ls is /bin/ls\n");
    assert_eq!(type_text("nope", None), "nope: not found\n");
}

#[test]
fn command_not_found_report() {
    assert_eq!(not_found_text("my-cmd"), "my-cmd: command not found\n");
}

#[test]
fn cd_reports_and_targets() {
    assert_eq!(cd_failure_text("/nope"), "cd: /nope: No such file or directory\n");
    assert_eq!(cd_target("~", Some("/home/u".to_string())), Some("/home/u".to_string()));
    assert_eq!(cd_target("~", None), None);
    assert_eq!(cd_target("/tmp", Some("/home/u".to_string())), Some("/tmp".to_string()));
    assert_eq!(cd_target("~/x", None), Some("~/x".to_string()));
}

#[test]
fn path_value_splits_on_colons() {
    assert_eq!(path_dirs("/usr/bin:/bin"), strings(&["/usr/bin", "/bin"]));
    assert_eq!(path_dirs(""), strings(&[""]));
    assert_eq!(path_dirs("a::b:"), strings(&["a", "", "b", ""]));
    assert_eq!(path_dirs("/only"), strings(&["/only"]));
}
