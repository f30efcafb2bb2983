use shell_core::cleaner::remove_unwanted;
use shell_core::scanner::handle_args;
use shell_core::text::{chars_of, same_text, string_of};
use shell_core::tokenizer::{split_args, IterArgs};

fn chars(s: &str) -> Vec<char> {
    s.chars().collect()
}

fn words(line: &str) -> Vec<String> {
    split_args(line)
}

#[test]
fn spans_cover_the_whole_line() {
    let lines = [
        "echo hello   world'hii'",
        "  a\\ b \"c d\" 'e' ",
        "\"unterminated 'x",
        "tail\\",
        "",
        "x",
        "\t\r  ",
        "\"\" '' a",
    ];
    for line in lines {
        let v = chars(line);
        let mut start = 0usize;
        while start < v.len() {
            let (drops, end) = handle_args(&v[start..]);
            assert!(end >= 1);
            assert!(start + end <= v.len());
            assert!(drops.iter().all(|d| *d < end));
            start += end;
        }
        assert_eq!(start, v.len());
        for t in split_args(line) {
            assert!(!t.is_empty());
        }
    }
}

#[test]
fn clean_with_nothing_to_drop_is_identity() {
    assert_eq!(remove_unwanted(&chars("a b'c\""), vec![]), "a b'c\"");
    assert_eq!(remove_unwanted(&chars(""), vec![]), "");
}

#[test]
fn clean_drops_listed_positions() {
    assert_eq!(remove_unwanted(&chars("\"ab\" "), vec![0, 3, 4]), "ab");
    assert_eq!(remove_unwanted(&chars("a\\ b"), vec![1]), "a b");
    assert_eq!(remove_unwanted(&chars("''"), vec![0, 1]), "");
    assert_eq!(remove_unwanted(&chars("xyz"), vec![1, 7]), "xz");
}

#[test]
fn double_quote_inside_single_quotes_is_literal() {
    let v = chars("'a\"b'");
    let (drops, end) = handle_args(&v);
    assert_eq!(drops, vec![0, 4]);
    assert_eq!(end, 5);
    assert_eq!(remove_unwanted(&v[..end], drops), "a\"b");
    assert_eq!(words("'a\"b'"), vec!["a\"b"]);
}

#[test]
fn escaped_quote_inside_double_quotes() {
    let v = chars("\"\\\"\"");
    let (drops, end) = handle_args(&v);
    assert_eq!(drops, vec![0, 1, 3]);
    assert_eq!(end, 4);
    assert_eq!(remove_unwanted(&v[..end], drops), "\"");
}

#[test]
fn blank_ends_token_and_is_dropped() {
    let v = chars("ab cd");
    assert_eq!(handle_args(&v), (vec![2], 3));
    let v = chars("ab\tcd");
    assert_eq!(handle_args(&v), (vec![2], 3));
    let v = chars("ab\rcd");
    assert_eq!(handle_args(&v), (vec![2], 3));
}

#[test]
fn scan_of_empty_input() {
    let v: Vec<char> = Vec::new();
    assert_eq!(handle_args(&v), (vec![], 0));
}

#[test]
fn backslash_outside_quotes_escapes_next() {
    assert_eq!(words("a\\ b c"), vec!["a b", "c"]);
    assert_eq!(words("\\'x\\'"), vec!["'x'"]);
    assert_eq!(words("\\\\"), vec!["\\"]);
    assert_eq!(words("n\\n"), vec!["nn"]);
}

#[test]
fn backslash_at_end_of_line() {
    let v = chars("ab\\");
    assert_eq!(handle_args(&v), (vec![2], 3));
    assert_eq!(words("ab\\"), vec!["ab"]);
}

#[test]
fn backslash_inside_double_quotes() {
    assert_eq!(words("\"a\\nb\""), vec!["a\\nb"]);
    assert_eq!(words("\"a\\\\b\""), vec!["a\\b"]);
    assert_eq!(words("\"a\\\"b\""), vec!["a\"b"]);
    assert_eq!(words("\"a\\'b\""), vec!["a\\'b"]);
}

#[test]
fn single_quotes_keep_everything() {
    assert_eq!(words("'a\\b  \"c'"), vec!["a\\b  \"c"]);
}

#[test]
fn adjacent_quoted_parts_join() {
    assert_eq!(words("a'b c'\"d e\"f"), vec!["ab cd ef"]);
    assert_eq!(words("echo hello   world'hii'"), vec!["echo", "hello", "worldhii"]);
}

#[test]
fn empty_quotes_and_blank_runs_yield_nothing() {
    assert_eq!(words(""), Vec::<String>::new());
    assert_eq!(words("   \t "), Vec::<String>::new());
    assert_eq!(words("\"\" ''"), Vec::<String>::new());
    assert_eq!(words("  a  \"\"  b  "), vec!["a", "b"]);
}

#[test]
fn unterminated_quote_runs_to_end_of_line() {
    assert_eq!(words("a \"b c"), vec!["a", "b c"]);
    assert_eq!(words("a 'b \"c"), vec!["a", "b \"c"]);
}

#[test]
fn text_beyond_ascii() {
    assert_eq!(words("héllo 'wörld ☃'"), vec!["héllo", "wörld ☃"]);
}

#[test]
fn cursor_hands_out_tokens_then_none() {
    let mut it = IterArgs::new("one  'two three' ");
    assert_eq!(it.next(), Some("one".to_string()));
    assert_eq!(it.next(), Some("two three".to_string()));
    assert_eq!(it.next(), None);
    assert_eq!(it.next(), None);
}

#[test]
fn text_helpers() {
    assert_eq!(chars_of("aé☃"), vec!['a', 'é', '☃']);
    assert_eq!(string_of(&['x', 'ÿ']), "xÿ");
    assert!(same_text("cd", "cd"));
    assert!(!same_text("cd", "c"));
    assert!(!same_text("ab", "ba"));
}
