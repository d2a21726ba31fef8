use shell::autocomplete::{completes_word, ShellCompleter};

fn words(v: &[&str]) -> Vec<String> {
    v.iter().map(|s| s.to_string()).collect()
}

#[test]
fn builtins_complete() {
    let c = ShellCompleter;
    assert_eq!(c.get_candidates("e", &vec![]), words(&["echo", "exit"]));
    assert_eq!(c.get_candidates("ec", &vec![]), words(&["echo"]));
    assert_eq!(c.get_candidates("echo", &vec![]), words(&[]));
}

#[test]
fn path_names_are_sorted_and_unique() {
    let c = ShellCompleter;
    let names = words(&["exa", "ed", "echo", "exa", "ls", "e"]);
    assert_eq!(c.get_candidates("e", &names), words(&["echo", "ed", "exa", "exit"]));
}

#[test]
fn order_is_by_bytes() {
    let c = ShellCompleter;
    let names = words(&["xb", "xB", "xä", "xa", "x"]);
    assert_eq!(c.get_candidates("x", &names), words(&["xB", "xa", "xb", "xä"]));
}

#[test]
fn empty_word_completes_everything() {
    let c = ShellCompleter;
    assert_eq!(c.get_candidates("", &words(&["ls"])), words(&["echo", "exit", "ls"]));
}

#[test]
fn prefix_rule() {
    assert!(completes_word("ec", "echo"));
    assert!(!completes_word("echo", "echo"));
    assert!(!completes_word("ex", "echo"));
    assert!(completes_word("", "a"));
}

#[test]
fn completing_a_line() {
    let c = ShellCompleter;
    let (start, pairs) = c.complete("ec", 2, &vec![]);
    assert_eq!(start, 0);
    assert_eq!(pairs.len(), 1);
    assert_eq!(pairs[0].display, "echo");
    assert_eq!(pairs[0].replacement, "echo ");
}

#[test]
fn only_the_first_word_completes() {
    let c = ShellCompleter;
    let (start, pairs) = c.complete("echo e", 6, &vec![]);
    assert_eq!(start, 6);
    assert!(pairs.is_empty());
    assert_eq!(ShellCompleter::completion_word("echo e", 6), None);
}

#[test]
fn cursor_inside_the_line() {
    let c = ShellCompleter;
    let (start, pairs) = c.complete("ex foo", 2, &vec![]);
    assert_eq!(start, 0);
    assert_eq!(pairs.len(), 1);
    assert_eq!(pairs[0].replacement, "exit ");
    assert_eq!(ShellCompleter::completion_word("éx foo", 3), Some("éx".to_string()));
}
