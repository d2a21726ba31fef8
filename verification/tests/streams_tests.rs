use shell::streams::{Redirection, RedirectionError, Sink};

fn words(v: &[&str]) -> Vec<String> {
    v.iter().map(|s| s.to_string()).collect()
}

#[test]
fn no_redirection_keeps_words() {
    let r = Redirection::parse_streams(words(&["echo", "hello"]));
    assert_eq!(r.clean_args, words(&["echo", "hello"]));
    assert_eq!(r.stdout_file, None);
    assert_eq!(r.stderr_file, None);
}

#[test]
fn stdout_redirection() {
    let r = Redirection::parse_streams(words(&["echo", "hello", ">", "out.txt"]));
    assert_eq!(r.clean_args, words(&["echo", "hello"]));
    assert_eq!(r.stdout_file, Some("out.txt".to_string()));
    assert_eq!(r.stderr_file, None);
}

#[test]
fn explicit_stdout_and_stderr_redirection() {
    let r = Redirection::parse_streams(words(&["ls", "1>", "a", "-l", "2>", "b"]));
    assert_eq!(r.clean_args, words(&["ls", "-l"]));
    assert_eq!(r.stdout_file, Some("a".to_string()));
    assert_eq!(r.stderr_file, Some("b".to_string()));
}

#[test]
fn later_redirection_wins() {
    let r = Redirection::parse_streams(words(&["echo", "x", ">", "f1", ">", "f2"]));
    assert_eq!(r.clean_args, words(&["echo", "x"]));
    assert_eq!(r.stdout_file, Some("f2".to_string()));
}

#[test]
fn missing_stdout_file_stops_the_scan() {
    let (r, e) = Redirection::parse_streams_checked(words(&["echo", "x", ">"]));
    assert_eq!(r.clean_args, words(&["echo", "x"]));
    assert_eq!(r.stdout_file, None);
    assert_eq!(e, Some(RedirectionError::MissingStdoutFile));
    assert_eq!(e.unwrap().message(), "Syntax error: no file after >");
}

#[test]
fn missing_stderr_file_stops_the_scan() {
    let (r, e) = Redirection::parse_streams_checked(words(&["ls", ">", "f", "2>"]));
    assert_eq!(r.clean_args, words(&["ls"]));
    assert_eq!(r.stdout_file, Some("f".to_string()));
    assert_eq!(e, Some(RedirectionError::MissingStderrFile));
    assert_eq!(e.unwrap().message(), "Syntax error: no file after 2>");
}

#[test]
fn checked_parse_without_error() {
    let (r, e) = Redirection::parse_streams_checked(words(&["cat", "2>", "err"]));
    assert_eq!(r.clean_args, words(&["cat"]));
    assert_eq!(r.stderr_file, Some("err".to_string()));
    assert_eq!(e, None);
}

#[test]
fn sinks() {
    let r = Redirection::parse_streams(words(&["echo", "x", "2>", "e"]));
    assert!(matches!(r.builtin_output_sink(), Sink::Stdout));
    match r.builtin_error_sink() {
        Sink::File(f) => assert_eq!(f, "e"),
        Sink::Stdout => panic!("expected a file"),
    }
    let r = Redirection::parse_streams(words(&["echo", "x", ">", "o"]));
    match r.builtin_output_sink() {
        Sink::File(f) => assert_eq!(f, "o"),
        Sink::Stdout => panic!("expected a file"),
    }
    assert!(matches!(r.builtin_error_sink(), Sink::Stdout));
}
