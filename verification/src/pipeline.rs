use vstd::prelude::*;

use crate::parser::commands_view;
use crate::text::{
    join_spaced,
    join_spaced_from,
    split_on,
    split_on_char,
    str_contains_char,
    str_eq,
    strings_from,
    strings_view,
};

verus! {

/// The builtins of the command runner.
pub open spec fn is_builtin_name(cmd: Seq<char>) -> bool {
    cmd == "echo"@ || cmd == "exit"@ || cmd == "type"@ || cmd == "pwd"@ || cmd == "cd"@
}

/// Whether `cmd` names one of the builtins `echo`, `exit`, `type`, `pwd`
/// and `cd`.
pub fn is_builtin(cmd: &str) -> (res: bool)
    ensures
        res == is_builtin_name(cmd@),
{
    str_eq(cmd, "echo") || str_eq(cmd, "exit") || str_eq(cmd, "type") || str_eq(cmd, "pwd")
        || str_eq(cmd, "cd")
}

/// A file mode with an execute permission bit set, for the owner, the
/// group or others.
pub open spec fn has_exec_bit(mode: u32) -> bool {
    mode & 0o111u32 != 0
}

/// Whether the file mode `mode` lets someone execute the file.
pub fn is_executable_mode(mode: u32) -> (res: bool)
    ensures
        res == has_exec_bit(mode),
{
    mode & 0o111u32 != 0
}

/// The path that joining `name` to the directory `dir` gives, as
/// `Path::join` builds it on Unix: an absolute `name` replaces `dir`;
/// otherwise a `/` goes between them unless `dir` is empty or already ends
/// with one.
pub open spec fn join_path(dir: Seq<char>, name: Seq<char>) -> Seq<char> {
    if name.len() > 0 && name[0] == '/' {
        name
    } else if dir.len() == 0 || dir.last() == '/' {
        dir + name
    } else {
        dir + seq!['/'] + name
    }
}

/// Joins `name` to the directory `dir`.
pub fn join_dir(dir: &str, name: &str) -> (res: String)
    ensures
        res@ == join_path(dir@, name@),
{
    let name_chars = crate::text::chars_of(name);
    let dir_chars = crate::text::chars_of(dir);
    if name_chars.len() > 0 && name_chars[0] == '/' {
        return String::from_str(name);
    }
    let mut res = String::from_str(dir);
    if dir_chars.len() > 0 && dir_chars[dir_chars.len() - 1] != '/' {
        res.push('/');
    }
    res.append(name);
    res
}

/// The paths where `name` is looked for: `name` joined to each directory
/// of the `:`-separated list `path_var`, in order.
pub open spec fn path_candidates_spec(path_var: Seq<char>, name: Seq<char>) -> Seq<Seq<char>> {
    split_on(path_var, ':').map_values(|dir: Seq<char>| join_path(dir, name))
}

/// The paths where `name` is looked for in the directory list `path_var`
/// (the value of `PATH`).
pub fn path_candidates(path_var: &str, name: &str) -> (res: Vec<String>)
    ensures
        strings_view(res@) == path_candidates_spec(path_var@, name@),
{
    let dirs = split_on_char(path_var, ':');
    let ghost ds = strings_view(dirs@);
    let mut res: Vec<String> = Vec::new();
    let mut k: usize = 0;
    while k < dirs.len()
        invariant
            ds == strings_view(dirs@),
            ds == split_on(path_var@, ':'),
            k <= dirs@.len(),
            strings_view(res@) == ds.take(k as int).map_values(
                |dir: Seq<char>| join_path(dir, name@),
            ),
        decreases dirs@.len() - k,
    {
        let ghost before = strings_view(res@);
        let p = join_dir(dirs[k].as_str(), name);
        assert(ds[k as int] == dirs@[k as int]@);
        res.push(p);
        assert(strings_view(res@) =~= before.push(p@));
        assert(ds.take(k + 1) =~= ds.take(k as int).push(ds[k as int]));
        assert(strings_view(res@) =~= ds.take(k + 1).map_values(
            |dir: Seq<char>| join_path(dir, name@),
        ));
        k = k + 1;
    }
    assert(ds.take(dirs@.len() as int) =~= ds);
    res
}

/// With one directory in `PATH` the name is looked for there only; with
/// two, in the first and then in the second.
pub proof fn law_path_candidates(d1: Seq<char>, d2: Seq<char>, name: Seq<char>)
    requires
        forall|j: int| 0 <= j < d1.len() ==> d1[j] != ':',
        forall|j: int| 0 <= j < d2.len() ==> d2[j] != ':',
    ensures
        path_candidates_spec(d1, name) == seq![join_path(d1, name)],
        path_candidates_spec(d1 + seq![':'] + d2, name) == seq![
            join_path(d1, name),
            join_path(d2, name),
        ],
{
    crate::text::law_split_pieces(d1, d2, ':');
    assert(path_candidates_spec(d1, name) =~= seq![join_path(d1, name)]);
    assert(path_candidates_spec(d1 + seq![':'] + d2, name) =~= seq![
        join_path(d1, name),
        join_path(d2, name),
    ]);
}

/// A file can be executed when one of its three execute permission bits
/// (owner, group, others) is set.
pub proof fn law_exec_bits(mode: u32)
    ensures
        has_exec_bit(mode) <==> (mode & 0o100u32 != 0 || mode & 0o010u32 != 0 || mode & 0o001u32
            != 0),
{
    assert((mode & 0o111u32 != 0) <==> (mode & 0o100u32 != 0 || mode & 0o010u32 != 0 || mode
        & 0o001u32 != 0)) by (bit_vector);
}

/// The builtins are `echo`, `exit`, `type`, `pwd` and `cd`, and no other
/// word (`history` in particular) is one.
pub proof fn law_builtin_names(x: Seq<char>)
    ensures
        is_builtin_name("echo"@) && is_builtin_name("exit"@) && is_builtin_name("type"@)
            && is_builtin_name("pwd"@) && is_builtin_name("cd"@),
        !is_builtin_name("history"@),
        x != "echo"@ && x != "exit"@ && x != "type"@ && x != "pwd"@ && x != "cd"@
            ==> !is_builtin_name(x),
{
    crate::text::lemma_builtin_names_differ();
}

/// How a command name is looked up.
pub enum ExecutableSearch {
    /// The name holds a `/`: it is the path itself, found when it exists.
    Direct(String),
    /// The paths to try in the directories of `PATH`, in order; the first
    /// that is an executable file is found.
    InPath(Vec<String>),
    /// `PATH` is unset: nothing is found.
    NoPath,
}

/// How the command `cmd` is looked up, given the value of `PATH` if it is
/// set.
pub fn executable_search(cmd: &str, path_var: Option<&str>) -> (res: ExecutableSearch)
    ensures
        cmd@.contains('/') ==> (res matches ExecutableSearch::Direct(p) && p@ == cmd@),
        !cmd@.contains('/') ==> match path_var {
            Some(pv) => res matches ExecutableSearch::InPath(c) && strings_view(c@)
                == path_candidates_spec(pv@, cmd@),
            None => res is NoPath,
        },
{
    if str_contains_char(cmd, '/') {
        return ExecutableSearch::Direct(String::from_str(cmd));
    }
    match path_var {
        Some(pv) => ExecutableSearch::InPath(path_candidates(pv, cmd)),
        None => ExecutableSearch::NoPath,
    }
}

/// The file at position `i` was found (its mode could be read) and is
/// executable.
pub open spec fn usable(modes: Seq<Option<u32>>, i: int) -> bool {
    modes[i] matches Some(m) && has_exec_bit(m)
}

/// The first candidate path whose file exists with an execute permission
/// bit set, given the mode of each candidate's file (`None` where it could
/// not be read).
pub fn first_executable(candidates: &Vec<String>, modes: &Vec<Option<u32>>) -> (res: Option<
    String,
>)
    requires
        candidates@.len() == modes@.len(),
    ensures
        match res {
            Some(p) => exists|i: int|
                0 <= i < modes@.len() && usable(modes@, i) && p@ == candidates@[i]@ && forall|
                    j: int,
                |
                    0 <= j < i ==> !usable(modes@, j),
            None => forall|i: int| 0 <= i < modes@.len() ==> !usable(modes@, i),
        },
{
    let mut k: usize = 0;
    while k < candidates.len()
        invariant
            candidates@.len() == modes@.len(),
            k <= modes@.len(),
            forall|j: int| 0 <= j < k ==> !usable(modes@, j),
        decreases modes@.len() - k,
    {
        match modes[k] {
            Some(m) => {
                if is_executable_mode(m) {
                    let found = candidates[k].clone();
                    assert(usable(modes@, k as int));
                    return Some(found);
                }
            },
            None => {},
        }
        k = k + 1;
    }
    None
}

/// What a command needs looked up before it can run.
pub struct LookupRequest {
    /// The current directory (for `pwd`).
    pub cwd: bool,
    /// The command that `type` describes, when it is not a builtin.
    pub type_target: Option<String>,
    /// The command to run, when it is not a builtin.
    pub program: Option<String>,
}

/// What the lookups gave.
pub struct LookupResults {
    /// The current directory, if it was asked for and could be read.
    pub cwd: Option<String>,
    /// Where the command that `type` describes was found.
    pub type_target_path: Option<String>,
    /// Where the command to run was found.
    pub program_path: Option<String>,
}

/// The contents of an optional string.
pub open spec fn opt_text(o: Option<String>) -> Option<Seq<char>> {
    match o {
        Some(s) => Some(s@),
        None => None,
    }
}

impl View for LookupRequest {
    type V = (bool, Option<Seq<char>>, Option<Seq<char>>);

    open spec fn view(&self) -> Self::V {
        (self.cwd, opt_text(self.type_target), opt_text(self.program))
    }
}

impl View for LookupResults {
    type V = (Option<Seq<char>>, Option<Seq<char>>, Option<Seq<char>>);

    open spec fn view(&self) -> Self::V {
        (opt_text(self.cwd), opt_text(self.type_target_path), opt_text(self.program_path))
    }
}

/// The lookups that the command `args` needs.
pub open spec fn lookups_spec(args: Seq<Seq<char>>) -> (bool, Option<Seq<char>>, Option<
    Seq<char>,
>) {
    if args.len() == 0 {
        (false, None, None)
    } else {
        (
            args[0] == "pwd"@,
            if args[0] == "type"@ && args.len() >= 2 && !is_builtin_name(args[1]) {
                Some(args[1])
            } else {
                None
            },
            if !is_builtin_name(args[0]) {
                Some(args[0])
            } else {
                None
            },
        )
    }
}

/// The lookups that the command `args` needs: the current directory for
/// `pwd`, the command that `type` describes unless it is a builtin, and
/// the command itself unless it is a builtin.
pub fn lookups_for(args: &Vec<String>) -> (res: LookupRequest)
    ensures
        res@ == lookups_spec(strings_view(args@)),
        args@.len() > 0 && !is_builtin_name(args@[0]@) ==> opt_text(res.program) == Some(
            args@[0]@,
        ),
        args@.len() == 0 || is_builtin_name(args@[0]@) ==> res.program is None,
        res.cwd <==> args@.len() > 0 && args@[0]@ == "pwd"@,
{
    let ghost ws = strings_view(args@);
    if args.len() == 0 {
        return LookupRequest { cwd: false, type_target: None, program: None };
    }
    assert(ws[0] == args@[0]@);
    let first = args[0].as_str();
    let cwd = str_eq(first, "pwd");
    let type_target = if str_eq(first, "type") && args.len() >= 2 && !is_builtin(
        args[1].as_str(),
    ) {
        assert(ws[1] == args@[1]@);
        Some(args[1].clone())
    } else {
        proof {
            if args@.len() >= 2 {
                assert(ws[1] == args@[1]@);
            }
        }
        None
    };
    let program = if !is_builtin(first) {
        Some(args[0].clone())
    } else {
        None
    };
    LookupRequest { cwd, type_target, program }
}

/// What `type` says of a command that is not a builtin: where it was
/// found, or that it was not.
pub open spec fn type_report_spec(name: Seq<char>, found: Option<Seq<char>>) -> Seq<char> {
    match found {
        Some(p) => name + " is "@ + p,
        None => name + ": not found"@,
    }
}

/// What `type` says of the command `name`, which is not a builtin, given
/// where it was found.
pub fn type_report(name: &str, found: &Option<String>) -> (res: String)
    ensures
        res@ == type_report_spec(name@, opt_text(*found)),
{
    let mut msg = String::from_str(name);
    match found {
        Some(p) => {
            msg.append(" is ");
            msg.append(p.as_str());
        },
        None => {
            msg.append(": not found");
        },
    }
    msg
}

/// The message for a command that was not found.
pub open spec fn not_found_spec(name: Seq<char>) -> Seq<char> {
    name + ": command not found"@
}

/// The message for the command `name`, which was not found.
pub fn command_not_found(name: &str) -> (res: String)
    ensures
        res@ == not_found_spec(name@),
{
    let mut msg = String::from_str(name);
    msg.append(": command not found");
    msg
}

/// What a builtin prints, given the lookups done for it.
pub open spec fn builtin_output(args: Seq<Seq<char>>, found: (
    Option<Seq<char>>,
    Option<Seq<char>>,
    Option<Seq<char>>,
)) -> Seq<char> {
    if args.len() == 0 {
        Seq::empty()
    } else if args[0] == "echo"@ {
        join_spaced(args.skip(1))
    } else if args[0] == "pwd"@ {
        match found.0 {
            Some(d) => d,
            None => Seq::empty(),
        }
    } else if args[0] == "type"@ {
        if args.len() < 2 {
            "mention the command."@
        } else if is_builtin_name(args[1]) {
            args[1] + " is a shell builtin"@
        } else {
            type_report_spec(args[1], found.1)
        }
    } else {
        Seq::empty()
    }
}

/// What the builtin `args` prints: `echo` its arguments joined by spaces,
/// `pwd` the current directory (nothing when it could not be read), `type`
/// whether its argument is a builtin, where it was found or that it was
/// not; the other commands print nothing.
pub fn execute_builtin(args: &Vec<String>, found: &LookupResults) -> (res: String)
    ensures
        res@ == builtin_output(strings_view(args@), found@),
{
    let ghost ws = strings_view(args@);
    if args.len() == 0 {
        return String::new();
    }
    assert(ws[0] == args@[0]@);
    let first = args[0].as_str();
    if str_eq(first, "echo") {
        join_spaced_from(args, 1)
    } else if str_eq(first, "pwd") {
        match &found.cwd {
            Some(d) => d.clone(),
            None => String::new(),
        }
    } else if str_eq(first, "type") {
        if args.len() < 2 {
            return String::from_str("mention the command.");
        }
        assert(ws[1] == args@[1]@);
        let cmd = args[1].as_str();
        if is_builtin(cmd) {
            let mut msg = String::from_str(cmd);
            msg.append(" is a shell builtin");
            msg
        } else {
            type_report(cmd, &found.type_target_path)
        }
    } else {
        String::new()
    }
}

/// What running a single command does.
pub enum CommandAction {
    /// Nothing: no words, or a builtin that prints nothing.
    Nothing,
    /// Print the text of a builtin, with a newline.
    Print(String),
    /// Run the program at `program` with the arguments `args`, giving it
    /// the name `arg0`, and wait for it.
    Run { program: String, args: Vec<String>, arg0: String },
    /// Print the message to standard error: the command was not found.
    NotFound(String),
}

/// The contents of a `CommandAction`.
pub enum ActionView {
    Nothing,
    Print(Seq<char>),
    Run(Seq<char>, Seq<Seq<char>>, Seq<char>),
    NotFound(Seq<char>),
}

impl View for CommandAction {
    type V = ActionView;

    open spec fn view(&self) -> ActionView {
        match self {
            CommandAction::Nothing => ActionView::Nothing,
            CommandAction::Print(t) => ActionView::Print(t@),
            CommandAction::Run { program, args, arg0 } => ActionView::Run(
                program@,
                strings_view(args@),
                arg0@,
            ),
            CommandAction::NotFound(m) => ActionView::NotFound(m@),
        }
    }
}

/// What running the single command `args` does, given its lookups.
pub open spec fn single_action_spec(args: Seq<Seq<char>>, found: (
    Option<Seq<char>>,
    Option<Seq<char>>,
    Option<Seq<char>>,
)) -> ActionView {
    if args.len() == 0 {
        ActionView::Nothing
    } else if is_builtin_name(args[0]) {
        if builtin_output(args, found).len() == 0 {
            ActionView::Nothing
        } else {
            ActionView::Print(builtin_output(args, found))
        }
    } else {
        match found.2 {
            Some(p) => ActionView::Run(p, args.skip(1), args[0]),
            None => ActionView::NotFound(not_found_spec(args[0])),
        }
    }
}

/// What running the single command `args` (no pipe) does: a builtin
/// prints its text when it has any; another command runs from where it was
/// found, or is reported as not found.
pub fn single_command_action(args: &Vec<String>, found: &LookupResults) -> (res: CommandAction)
    ensures
        res@ == single_action_spec(strings_view(args@), found@),
        args@.len() > 0 && is_builtin_name(args@[0]@) && builtin_output(
            strings_view(args@),
            found@,
        ).len() > 0 ==> res@ == ActionView::Print(builtin_output(strings_view(args@), found@)),
        args@.len() > 0 && !is_builtin_name(args@[0]@) && found.program_path is Some ==> res@
            == ActionView::Run(
            found@.2.unwrap(),
            strings_view(args@).skip(1),
            args@[0]@,
        ),
        args@.len() > 0 && !is_builtin_name(args@[0]@) && found.program_path is None ==> res@
            == ActionView::NotFound(args@[0]@ + ": command not found"@),
{
    let ghost ws = strings_view(args@);
    if args.len() == 0 {
        return CommandAction::Nothing;
    }
    assert(ws[0] == args@[0]@);
    if is_builtin(args[0].as_str()) {
        let output = execute_builtin(args, found);
        if output.as_str().is_empty() {
            return CommandAction::Nothing;
        }
        return CommandAction::Print(output);
    }
    match &found.program_path {
        Some(p) => CommandAction::Run {
            program: p.clone(),
            args: strings_from(args, 1),
            arg0: args[0].clone(),
        },
        None => CommandAction::NotFound(command_not_found(args[0].as_str())),
    }
}

/// What one side of a two-command pipeline does, once its standard
/// streams are connected to the pipe.
pub enum StageAction {
    /// Print the text of a builtin, with a newline, and exit with status 0.
    PrintAndExit(String),
    /// Replace the process with `program`, run with the arguments `args`
    /// under the name `arg0`.
    Exec { program: String, args: Vec<String>, arg0: String },
    /// Exit with status 1: the command was not found.
    Fail,
}

/// The contents of a `StageAction`.
pub enum StageView {
    PrintAndExit(Seq<char>),
    Exec(Seq<char>, Seq<Seq<char>>, Seq<char>),
    Fail,
}

impl View for StageAction {
    type V = StageView;

    open spec fn view(&self) -> StageView {
        match self {
            StageAction::PrintAndExit(t) => StageView::PrintAndExit(t@),
            StageAction::Exec { program, args, arg0 } => StageView::Exec(
                program@,
                strings_view(args@),
                arg0@,
            ),
            StageAction::Fail => StageView::Fail,
        }
    }
}

/// What the command `args` does as the first (`first`) or the second side
/// of a pipeline. The first side runs the program from where it was found;
/// the second gives the program's name as it was typed to the system's
/// program search.
pub open spec fn stage_action_spec(args: Seq<Seq<char>>, first: bool, found: (
    Option<Seq<char>>,
    Option<Seq<char>>,
    Option<Seq<char>>,
)) -> StageView {
    if is_builtin_name(args[0]) {
        StageView::PrintAndExit(builtin_output(args, found))
    } else {
        match found.2 {
            Some(p) => StageView::Exec(
                if first {
                    p
                } else {
                    args[0]
                },
                args.skip(1),
                args[0],
            ),
            None => StageView::Fail,
        }
    }
}

/// What the command `args` does as one side of a pipeline: a builtin
/// prints its text (even an empty one) and exits; another command
/// replaces the process when it was found, and the process exits with a
/// failure when it was not.
pub fn stage_action(args: &Vec<String>, first: bool, found: &LookupResults) -> (res: StageAction)
    requires
        args@.len() > 0,
    ensures
        res@ == stage_action_spec(strings_view(args@), first, found@),
        res@ matches StageView::Exec(program, a, name) ==> a == strings_view(args@).skip(1) && name
            == args@[0]@ && (first ==> Some(program) == found@.2) && (!first ==> program
            == args@[0]@),
        is_builtin_name(args@[0]@) ==> res@ == StageView::PrintAndExit(
            builtin_output(strings_view(args@), found@),
        ),
        !is_builtin_name(args@[0]@) ==> (res@ is Fail <==> found.program_path is None),
{
    let ghost ws = strings_view(args@);
    assert(ws[0] == args@[0]@);
    if is_builtin(args[0].as_str()) {
        return StageAction::PrintAndExit(execute_builtin(args, found));
    }
    match &found.program_path {
        Some(p) => {
            let program = if first {
                p.clone()
            } else {
                args[0].clone()
            };
            StageAction::Exec { program, args: strings_from(args, 1), arg0: args[0].clone() }
        },
        None => StageAction::Fail,
    }
}

/// Every command whose first word is not a builtin has that word looked
/// up, whatever the number of its arguments; a builtin is never looked up;
/// the current directory is read exactly for `pwd`.
pub proof fn law_every_program_is_looked_up(args: Seq<Seq<char>>)
    requires
        args.len() > 0,
    ensures
        !is_builtin_name(args[0]) ==> lookups_spec(args).2 == Some(args[0]),
        is_builtin_name(args[0]) ==> lookups_spec(args).2 is None,
        lookups_spec(args).0 <==> args[0] == "pwd"@,
{
}

/// `pwd` prints the current directory, and nothing when it could not be
/// read.
pub proof fn law_pwd_prints_directory(args: Seq<Seq<char>>, found: (
    Option<Seq<char>>,
    Option<Seq<char>>,
    Option<Seq<char>>,
))
    requires
        args.len() > 0,
        args[0] == "pwd"@,
    ensures
        found.0 matches Some(d) ==> builtin_output(args, found) == d,
        found.0 is None ==> builtin_output(args, found).len() == 0,
{
    crate::text::lemma_builtin_names_differ();
}

/// `echo` prints its one argument as it is, and an empty line without one.
pub proof fn law_echo_prints_its_word(w: Seq<char>, found: (
    Option<Seq<char>>,
    Option<Seq<char>>,
    Option<Seq<char>>,
))
    ensures
        builtin_output(seq!["echo"@, w], found) == w,
        builtin_output(seq!["echo"@], found).len() == 0,
{
    assert(seq!["echo"@, w].skip(1) =~= seq![w]);
    assert(seq!["echo"@].skip(1) =~= Seq::<Seq<char>>::empty());
}

/// `echo` prints its arguments with one space between each two.
pub proof fn law_echo_joins_with_spaces(w1: Seq<char>, w2: Seq<char>, w3: Seq<char>, found: (
    Option<Seq<char>>,
    Option<Seq<char>>,
    Option<Seq<char>>,
))
    ensures
        builtin_output(seq!["echo"@, w1, w2], found) == w1 + seq![' '] + w2,
        builtin_output(seq!["echo"@, w1, w2, w3], found) == w1 + seq![' '] + w2 + seq![' '] + w3,
{
    let a = seq!["echo"@, w1, w2].skip(1);
    assert(a =~= seq![w1, w2]);
    assert(a.drop_last() =~= seq![w1]);
    assert(join_spaced(seq![w1]) == w1);
    assert(join_spaced(a) == join_spaced(a.drop_last()) + seq![' '] + a.last());
    let b = seq!["echo"@, w1, w2, w3].skip(1);
    assert(b =~= seq![w1, w2, w3]);
    assert(b.drop_last() =~= seq![w1, w2]);
    assert(b.drop_last().drop_last() =~= seq![w1]);
    assert(join_spaced(b.drop_last()) == w1 + seq![' '] + w2);
    assert(join_spaced(b) == join_spaced(b.drop_last()) + seq![' '] + b.last());
}

/// `type` says that a builtin is a shell builtin; of another command it
/// says where it was found, or that it was not; without an argument it
/// asks for one.
pub proof fn law_type_reports(x: Seq<char>, found: (
    Option<Seq<char>>,
    Option<Seq<char>>,
    Option<Seq<char>>,
))
    ensures
        builtin_output(seq!["type"@], found) == "mention the command."@,
        is_builtin_name(x) ==> builtin_output(seq!["type"@, x], found) == x
            + " is a shell builtin"@,
        !is_builtin_name(x) ==> match found.1 {
            Some(p) => builtin_output(seq!["type"@, x], found) == x + " is "@ + p,
            None => builtin_output(seq!["type"@, x], found) == x + ": not found"@,
        },
{
    crate::text::lemma_builtin_names_differ();
}

/// Joining a relative name to a directory keeps the directory in front and
/// the name at the end, with at most one `/` added between them; an
/// absolute name is the path itself.
pub proof fn law_join_path(dir: Seq<char>, name: Seq<char>)
    ensures
        name.len() > 0 && name[0] == '/' ==> join_path(dir, name) == name,
        !(name.len() > 0 && name[0] == '/') ==> {
            &&& dir.is_prefix_of(join_path(dir, name))
            &&& name.is_suffix_of(join_path(dir, name))
            &&& join_path(dir, name).len() <= dir.len() + name.len() + 1
            &&& (dir.len() > 0 && dir.last() != '/' ==> join_path(dir, name)[dir.len() as int]
                == '/')
            &&& (dir.len() == 0 || dir.last() == '/' ==> join_path(dir, name).len() == dir.len()
                + name.len())
        },
{
    let j = join_path(dir, name);
    if !(name.len() > 0 && name[0] == '/') {
        assert(dir =~= j.subrange(0, dir.len() as int));
        assert(name =~= j.subrange(j.len() - name.len(), j.len() as int));
    }
}

/// A builtin run on its own prints exactly its output when that is not
/// empty, and does nothing otherwise; a program that was found runs with
/// the words after the first as arguments and the first word as its name;
/// one that was not found is reported.
pub proof fn law_single_command_runs(args: Seq<Seq<char>>, found: (
    Option<Seq<char>>,
    Option<Seq<char>>,
    Option<Seq<char>>,
))
    requires
        args.len() > 0,
    ensures
        is_builtin_name(args[0]) && builtin_output(args, found).len() > 0 ==> single_action_spec(
            args,
            found,
        ) == ActionView::Print(builtin_output(args, found)),
        is_builtin_name(args[0]) && builtin_output(args, found).len() == 0 ==> single_action_spec(
            args,
            found,
        ) == ActionView::Nothing,
        !is_builtin_name(args[0]) ==> match found.2 {
            Some(p) => single_action_spec(args, found) == ActionView::Run(
                p,
                args.skip(1),
                args[0],
            ),
            None => single_action_spec(args, found) == ActionView::NotFound(
                args[0] + ": command not found"@,
            ),
        },
{
}

/// On either side of a pipeline, a program that was found is given the
/// command's words after the first as its arguments and the first word as
/// its name.
pub proof fn law_stage_arguments(args: Seq<Seq<char>>, first: bool, found: (
    Option<Seq<char>>,
    Option<Seq<char>>,
    Option<Seq<char>>,
))
    requires
        args.len() > 0,
    ensures
        stage_action_spec(args, first, found) matches StageView::Exec(_, a, name) ==> a
            == args.skip(1) && name == args[0],
        !is_builtin_name(args[0]) ==> (stage_action_spec(args, first, found) is Exec <==> found.2
            is Some),
{
}

/// A command runs the same program with the same arguments on its own as
/// on the left of a pipe, and a builtin with output prints the same text.
pub proof fn law_single_and_first_stage_agree(args: Seq<Seq<char>>, found: (
    Option<Seq<char>>,
    Option<Seq<char>>,
    Option<Seq<char>>,
))
    requires
        args.len() > 0,
    ensures
        single_action_spec(args, found) matches ActionView::Run(p, a, n) ==> stage_action_spec(
            args,
            true,
            found,
        ) == StageView::Exec(p, a, n),
        single_action_spec(args, found) matches ActionView::Print(t) ==> stage_action_spec(
            args,
            true,
            found,
        ) == StageView::PrintAndExit(t),
{
}

/// How a parsed pipeline runs.
pub enum PipelinePlan {
    /// Nothing runs.
    Nothing,
    /// One command runs on its own.
    Single(Vec<String>),
    /// Two commands run at once, the first one's standard output feeding
    /// the second one's standard input.
    Pair(Vec<String>, Vec<String>),
}

/// How the commands of a pipeline run: one command on its own; two
/// non-empty commands connected by a pipe; anything else (no command, an
/// empty side of a two-command pipeline, three commands or more) does
/// nothing.
pub fn execute_pipeline(commands: Vec<Vec<String>>) -> (plan: PipelinePlan)
    ensures
        (plan is Nothing) <==> (commands@.len() == 0 || commands@.len() > 2 || (commands@.len()
            == 2 && (commands@[0]@.len() == 0 || commands@[1]@.len() == 0))),
        plan matches PipelinePlan::Single(c) ==> commands@.len() == 1 && strings_view(c@)
            == commands_view(commands@)[0],
        plan matches PipelinePlan::Pair(a, b) ==> commands@.len() == 2 && strings_view(a@)
            == commands_view(commands@)[0] && strings_view(b@) == commands_view(commands@)[1],
{
    let ghost cv = commands_view(commands@);
    let mut commands = commands;
    if commands.len() == 1 {
        let only = commands.remove(0);
        return PipelinePlan::Single(only);
    }
    if commands.len() == 2 {
        if commands[0].len() == 0 || commands[1].len() == 0 {
            return PipelinePlan::Nothing;
        }
        let second = commands.remove(1);
        let first = commands.remove(0);
        return PipelinePlan::Pair(first, second);
    }
    PipelinePlan::Nothing
}

} // verus!
