use shell::parser::{parse_input, parse_pipeline};

fn words(v: &[&str]) -> Vec<String> {
    v.iter().map(|s| s.to_string()).collect()
}

#[test]
fn splits_at_blanks() {
    assert_eq!(parse_input("echo hello world"), words(&["echo", "hello", "world"]));
}

#[test]
fn runs_of_blanks_and_tabs_separate_once() {
    assert_eq!(parse_input("  echo \t\t hello   world  "), words(&["echo", "hello", "world"]));
}

#[test]
fn empty_and_blank_lines_have_no_words() {
    assert!(parse_input("").is_empty());
    assert!(parse_input(" \t  ").is_empty());
}

#[test]
fn single_quotes_keep_text() {
    assert_eq!(parse_input("echo 'hello   world'"), words(&["echo", "hello   world"]));
    assert_eq!(parse_input("echo 'a\\b \"c\"'"), words(&["echo", "a\\b \"c\""]));
}

#[test]
fn adjacent_quoted_parts_join() {
    assert_eq!(parse_input("echo 'hello''world'"), words(&["echo", "helloworld"]));
    assert_eq!(parse_input("echo a\"b c\"d"), words(&["echo", "ab cd"]));
}

#[test]
fn empty_quotes_give_no_word() {
    assert_eq!(parse_input("echo '' \"\""), words(&["echo"]));
}

#[test]
fn double_quotes_keep_blanks_and_single_quotes() {
    assert_eq!(parse_input("echo \"it's  here\""), words(&["echo", "it's  here"]));
}

#[test]
fn backslash_in_double_quotes() {
    assert_eq!(parse_input("echo \"a\\\"b\""), words(&["echo", "a\"b"]));
    assert_eq!(parse_input("echo \"a\\\\b\""), words(&["echo", "a\\b"]));
    assert_eq!(parse_input("echo \"a\\$b\\`c\""), words(&["echo", "a$b`c"]));
    assert_eq!(parse_input("echo \"a\\nb\""), words(&["echo", "a\\nb"]));
}

#[test]
fn trailing_backslash_in_double_quotes_is_kept() {
    assert_eq!(parse_input("echo \"ab\\"), words(&["echo", "ab\\"]));
}

#[test]
fn unquoted_backslash_escapes_next() {
    assert_eq!(parse_input("echo a\\ b"), words(&["echo", "a b"]));
    assert_eq!(parse_input("echo \\'x\\'"), words(&["echo", "'x'"]));
    assert_eq!(parse_input("echo ab\\"), words(&["echo", "ab"]));
}

#[test]
fn non_ascii_text() {
    assert_eq!(parse_input("echo héllo wörld"), words(&["echo", "héllo", "wörld"]));
}

#[test]
fn pipeline_splits_at_bars() {
    let p = parse_pipeline("ls -l | grep 'a b'");
    assert_eq!(p, vec![words(&["ls", "-l"]), words(&["grep", "a b"])]);
}

#[test]
fn pipeline_without_bar_is_one_command() {
    assert_eq!(parse_pipeline("echo hi"), vec![words(&["echo", "hi"])]);
}

#[test]
fn pipeline_with_empty_side() {
    assert_eq!(parse_pipeline("echo hi |"), vec![words(&["echo", "hi"]), words(&[])]);
}
