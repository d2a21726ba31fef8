use shell::number::{parse_usize, push_decimal};
use shell::shell::{
    classify, history_entries, history_line, history_read_error, history_start, is_shell_builtin,
    white_space, ShellRequest,
};

fn words(v: &[&str]) -> Vec<String> {
    v.iter().map(|s| s.to_string()).collect()
}

#[test]
fn reads_numbers_like_std() {
    for s in ["0", "7", "42", "+5", "007", "18446744073709551615", "", "+", "-1", "1a", " 1", "++1", "18446744073709551616", "99999999999999999999"] {
        assert_eq!(parse_usize(s), s.parse::<usize>().ok(), "{}", s);
    }
}

#[test]
fn writes_numbers() {
    for n in [0usize, 9, 10, 123, usize::MAX] {
        let mut s = String::from("x");
        push_decimal(&mut s, n);
        assert_eq!(s, format!("x{}", n));
        assert_eq!(parse_usize(&s[1..]), Some(n));
    }
}

#[test]
fn history_window() {
    assert_eq!(history_start(10, None), 0);
    assert_eq!(history_start(10, Some("3")), 7);
    assert_eq!(history_start(10, Some("30")), 0);
    assert_eq!(history_start(10, Some("abc")), 0);
    assert_eq!(history_start(10, Some("0")), 10);
}

#[test]
fn history_lines() {
    assert_eq!(history_line(1, "echo hi"), "  1 echo hi");
    assert_eq!(history_line(120, "ls"), "  120 ls");
}

#[test]
fn history_file_entries() {
    let text = "echo a\n\n   \nls -l\r\n\tpwd\nlast";
    let expected: Vec<String> = text
        .lines()
        .filter(|l| !l.trim().is_empty())
        .map(|l| l.to_string())
        .collect();
    assert_eq!(history_entries(text), expected);
    assert_eq!(history_entries(text), words(&["echo a", "ls -l", "\tpwd", "last"]));
    assert!(history_entries("").is_empty());
    assert!(history_entries("\n\n").is_empty());
    assert_eq!(history_entries("a\r"), words(&["a\r"]));
    assert_eq!(history_read_error("f.txt"), "history: f.txt: cannot read file");
}

#[test]
fn white_space_like_std() {
    for c in ['\t', '\n', '\x0b', '\x0c', '\r', ' ', '\u{85}', '\u{a0}', '\u{1680}', '\u{2000}', '\u{200a}', '\u{2028}', '\u{2029}', '\u{202f}', '\u{205f}', '\u{3000}', 'a', '\u{200b}', '\u{feff}', '0', '\u{1f}'] {
        assert_eq!(white_space(c), c.is_whitespace(), "{:?}", c);
    }
}

#[test]
fn shell_builtins() {
    for b in ["echo", "exit", "type", "pwd", "cd", "history"] {
        assert!(is_shell_builtin(b));
    }
    assert!(!is_shell_builtin("ls"));
}

#[test]
fn classify_requests() {
    assert!(matches!(classify(&words(&[])), ShellRequest::Nothing));
    assert!(matches!(classify(&words(&["exit", "0"])), ShellRequest::Exit));
    match classify(&words(&["echo", "a", "b"])) {
        ShellRequest::Output(t) => assert_eq!(t, "a b"),
        _ => panic!(),
    }
    match classify(&words(&["type"])) {
        ShellRequest::Output(t) => assert_eq!(t, "mention the command."),
        _ => panic!(),
    }
    match classify(&words(&["type", "history"])) {
        ShellRequest::Output(t) => assert_eq!(t, "history is a shell builtin"),
        _ => panic!(),
    }
    match classify(&words(&["type", "ls"])) {
        ShellRequest::TypeLookup(n) => assert_eq!(n, "ls"),
        _ => panic!(),
    }
    assert!(matches!(classify(&words(&["pwd"])), ShellRequest::Pwd));
    match classify(&words(&["cd"])) {
        ShellRequest::ErrorOutput(t) => assert_eq!(t, "cd: missing argument"),
        _ => panic!(),
    }
    match classify(&words(&["cd", "~"])) {
        ShellRequest::ChangeDir { target, home_first, error } => {
            assert_eq!(target, "~");
            assert!(home_first);
            assert_eq!(error, "cd: ~: No such file or directory");
        }
        _ => panic!(),
    }
    match classify(&words(&["cd", "/tmp"])) {
        ShellRequest::ChangeDir { home_first, .. } => assert!(!home_first),
        _ => panic!(),
    }
    match classify(&words(&["history", "-r", "f"])) {
        ShellRequest::HistoryRead(f) => assert_eq!(f, "f"),
        _ => panic!(),
    }
    match classify(&words(&["history", "-w", "f"])) {
        ShellRequest::HistoryWrite(f) => assert_eq!(f, "f"),
        _ => panic!(),
    }
    match classify(&words(&["history", "-r"])) {
        ShellRequest::HistoryList(a) => assert_eq!(a, Some("-r".to_string())),
        _ => panic!(),
    }
    match classify(&words(&["history"])) {
        ShellRequest::HistoryList(a) => assert_eq!(a, None),
        _ => panic!(),
    }
    match classify(&words(&["ls", "-l"])) {
        ShellRequest::External { name, args } => {
            assert_eq!(name, "ls");
            assert_eq!(args, words(&["-l"]));
        }
        _ => panic!(),
    }
}
