use shell::pipeline::{
    command_not_found, execute_builtin, execute_pipeline, executable_search, first_executable,
    is_builtin, is_executable_mode, join_dir, lookups_for, path_candidates, single_command_action,
    stage_action, type_report, CommandAction, ExecutableSearch, LookupResults, PipelinePlan,
    StageAction,
};

fn words(v: &[&str]) -> Vec<String> {
    v.iter().map(|s| s.to_string()).collect()
}

fn nothing_found() -> LookupResults {
    LookupResults { cwd: None, type_target_path: None, program_path: None }
}

#[test]
fn builtins() {
    for b in ["echo", "exit", "type", "pwd", "cd"] {
        assert!(is_builtin(b));
    }
    assert!(!is_builtin("ls"));
    assert!(!is_builtin("history"));
    assert!(!is_builtin("ech"));
    assert!(!is_builtin(""));
}

#[test]
fn executable_modes() {
    assert!(is_executable_mode(0o755));
    assert!(is_executable_mode(0o100));
    assert!(is_executable_mode(0o010));
    assert!(is_executable_mode(0o001));
    assert!(!is_executable_mode(0o644));
    assert!(!is_executable_mode(0o100644 & !0o111));
}

#[test]
fn joining_paths() {
    assert_eq!(join_dir("/usr/bin", "ls"), "/usr/bin/ls");
    assert_eq!(join_dir("/usr/bin/", "ls"), "/usr/bin/ls");
    assert_eq!(join_dir("", "ls"), "ls");
    assert_eq!(join_dir("/usr/bin", "/bin/ls"), "/bin/ls");
    assert_eq!(join_dir("bin", "a/b"), "bin/a/b");
}

#[test]
fn candidates_in_path() {
    assert_eq!(
        path_candidates("/usr/bin:/bin::/opt/", "ls"),
        words(&["/usr/bin/ls", "/bin/ls", "ls", "/opt/ls"])
    );
    assert_eq!(path_candidates("", "ls"), words(&["ls"]));
}

#[test]
fn how_commands_are_searched() {
    match executable_search("./run", Some("/bin")) {
        ExecutableSearch::Direct(p) => assert_eq!(p, "./run"),
        _ => panic!("expected a direct path"),
    }
    match executable_search("ls", Some("/a:/b")) {
        ExecutableSearch::InPath(c) => assert_eq!(c, words(&["/a/ls", "/b/ls"])),
        _ => panic!("expected a PATH search"),
    }
    assert!(matches!(executable_search("ls", None), ExecutableSearch::NoPath));
}

#[test]
fn first_executable_is_found() {
    let c = words(&["/a/ls", "/b/ls", "/c/ls"]);
    assert_eq!(first_executable(&c, &vec![None, Some(0o644), Some(0o755)]), Some("/c/ls".to_string()));
    assert_eq!(first_executable(&c, &vec![Some(0o700), None, Some(0o755)]), Some("/a/ls".to_string()));
    assert_eq!(first_executable(&c, &vec![None, Some(0o600), None]), None);
}

#[test]
fn echo_output() {
    assert_eq!(execute_builtin(&words(&["echo", "a", "b", "c"]), &nothing_found()), "a b c");
    assert_eq!(execute_builtin(&words(&["echo"]), &nothing_found()), "");
}

#[test]
fn pwd_output() {
    let found = LookupResults { cwd: Some("/home/u".to_string()), type_target_path: None, program_path: None };
    assert_eq!(execute_builtin(&words(&["pwd"]), &found), "/home/u");
    assert_eq!(execute_builtin(&words(&["pwd"]), &nothing_found()), "");
}

#[test]
fn type_output() {
    assert_eq!(execute_builtin(&words(&["type"]), &nothing_found()), "mention the command.");
    assert_eq!(execute_builtin(&words(&["type", "cd"]), &nothing_found()), "cd is a shell builtin");
    assert_eq!(execute_builtin(&words(&["type", "nope"]), &nothing_found()), "nope: not found");
    let found = LookupResults { cwd: None, type_target_path: Some("/bin/ls".to_string()), program_path: None };
    assert_eq!(execute_builtin(&words(&["type", "ls"]), &found), "ls is /bin/ls");
    assert_eq!(type_report("ls", &Some("/bin/ls".to_string())), "ls is /bin/ls");
    assert_eq!(type_report("zz", &None), "zz: not found");
}

#[test]
fn other_builtins_print_nothing() {
    assert_eq!(execute_builtin(&words(&["exit"]), &nothing_found()), "");
    assert_eq!(execute_builtin(&words(&[]), &nothing_found()), "");
}

#[test]
fn lookups_needed() {
    let l = lookups_for(&words(&["pwd"]));
    assert!(l.cwd && l.type_target.is_none() && l.program.is_none());
    let l = lookups_for(&words(&["type", "ls"]));
    assert!(!l.cwd);
    assert_eq!(l.type_target, Some("ls".to_string()));
    assert!(l.program.is_none());
    let l = lookups_for(&words(&["type", "echo"]));
    assert!(l.type_target.is_none());
    let l = lookups_for(&words(&["ls", "-l"]));
    assert_eq!(l.program, Some("ls".to_string()));
    let l = lookups_for(&words(&[]));
    assert!(!l.cwd && l.type_target.is_none() && l.program.is_none());
}

#[test]
fn single_command_actions() {
    assert!(matches!(single_command_action(&words(&[]), &nothing_found()), CommandAction::Nothing));
    assert!(matches!(single_command_action(&words(&["echo"]), &nothing_found()), CommandAction::Nothing));
    match single_command_action(&words(&["echo", "hi"]), &nothing_found()) {
        CommandAction::Print(t) => assert_eq!(t, "hi"),
        _ => panic!("expected output"),
    }
    let found = LookupResults { cwd: None, type_target_path: None, program_path: Some("/bin/ls".to_string()) };
    match single_command_action(&words(&["ls", "-l", "x"]), &found) {
        CommandAction::Run { program, args, arg0 } => {
            assert_eq!(program, "/bin/ls");
            assert_eq!(args, words(&["-l", "x"]));
            assert_eq!(arg0, "ls");
        }
        _ => panic!("expected a run"),
    }
    match single_command_action(&words(&["nope"]), &nothing_found()) {
        CommandAction::NotFound(m) => assert_eq!(m, "nope: command not found"),
        _ => panic!("expected not found"),
    }
    assert_eq!(command_not_found("x"), "x: command not found");
}

#[test]
fn stage_actions() {
    match stage_action(&words(&["echo"]), true, &nothing_found()) {
        StageAction::PrintAndExit(t) => assert_eq!(t, ""),
        _ => panic!("expected output"),
    }
    let found = LookupResults { cwd: None, type_target_path: None, program_path: Some("/usr/bin/wc".to_string()) };
    match stage_action(&words(&["wc", "-l"]), true, &found) {
        StageAction::Exec { program, args, arg0 } => {
            assert_eq!(program, "/usr/bin/wc");
            assert_eq!(args, words(&["-l"]));
            assert_eq!(arg0, "wc");
        }
        _ => panic!("expected exec"),
    }
    match stage_action(&words(&["wc", "-l"]), false, &found) {
        StageAction::Exec { program, .. } => assert_eq!(program, "wc"),
        _ => panic!("expected exec"),
    }
    assert!(matches!(stage_action(&words(&["nope"]), false, &nothing_found()), StageAction::Fail));
}

#[test]
fn pipeline_plans() {
    assert!(matches!(execute_pipeline(vec![]), PipelinePlan::Nothing));
    match execute_pipeline(vec![words(&["ls"])]) {
        PipelinePlan::Single(c) => assert_eq!(c, words(&["ls"])),
        _ => panic!("expected one command"),
    }
    match execute_pipeline(vec![words(&["ls"]), words(&["wc", "-l"])]) {
        PipelinePlan::Pair(a, b) => {
            assert_eq!(a, words(&["ls"]));
            assert_eq!(b, words(&["wc", "-l"]));
        }
        _ => panic!("expected two commands"),
    }
    assert!(matches!(execute_pipeline(vec![words(&["ls"]), words(&[])]), PipelinePlan::Nothing));
    assert!(matches!(
        execute_pipeline(vec![words(&["a"]), words(&["b"]), words(&["c"])]),
        PipelinePlan::Nothing
    ));
}
