use vstd::prelude::*;

use crate::number::{decimal, parse_usize, parse_usize_spec, push_decimal};
use crate::text::{
    join_spaced,
    join_spaced_from,
    split_on,
    split_on_char,
    str_eq,
    strings_from,
    strings_view,
};

verus! {

/// The builtins of the interactive shell.
pub open spec fn is_shell_builtin_name(cmd: Seq<char>) -> bool {
    cmd == "echo"@ || cmd == "exit"@ || cmd == "type"@ || cmd == "pwd"@ || cmd == "cd"@ || cmd
        == "history"@
}

/// Whether `cmd` names one of the interactive shell's builtins: `echo`,
/// `exit`, `type`, `pwd`, `cd` and `history`.
pub fn is_shell_builtin(cmd: &str) -> (res: bool)
    ensures
        res == is_shell_builtin_name(cmd@),
{
    str_eq(cmd, "echo") || str_eq(cmd, "exit") || str_eq(cmd, "type") || str_eq(cmd, "pwd")
        || str_eq(cmd, "cd") || str_eq(cmd, "history")
}

/// What the interactive shell does with a command line's words (after its
/// redirections are taken out).
pub enum ShellRequest {
    /// Nothing: the line has no words.
    Nothing,
    /// Leave the shell.
    Exit,
    /// Write the text, with a newline, where builtin output goes.
    Output(String),
    /// Write the text, with a newline, where builtin errors go.
    ErrorOutput(String),
    /// Look the command up in `PATH` and say what `type_report` says.
    TypeLookup(String),
    /// Write the current directory where builtin output goes.
    Pwd,
    /// Change to the directory `target`; when `home_first`, to the home
    /// directory if `HOME` is set. When `target` is no directory, write
    /// `error` where builtin errors go.
    ChangeDir { target: String, home_first: bool, error: String },
    /// Add the non-blank lines of the file to the history.
    HistoryRead(String),
    /// Write the command line to the file.
    HistoryWrite(String),
    /// List the history, the most recent entries only when a number is
    /// given (see `history_start`).
    HistoryList(Option<String>),
    /// Run the program `name`, found in `PATH`, with the arguments `args`.
    External { name: String, args: Vec<String> },
}

/// The contents of a `ShellRequest`.
pub enum RequestView {
    Nothing,
    Exit,
    Output(Seq<char>),
    ErrorOutput(Seq<char>),
    TypeLookup(Seq<char>),
    Pwd,
    ChangeDir(Seq<char>, bool, Seq<char>),
    HistoryRead(Seq<char>),
    HistoryWrite(Seq<char>),
    HistoryList(Option<Seq<char>>),
    External(Seq<char>, Seq<Seq<char>>),
}

impl View for ShellRequest {
    type V = RequestView;

    open spec fn view(&self) -> RequestView {
        match self {
            ShellRequest::Nothing => RequestView::Nothing,
            ShellRequest::Exit => RequestView::Exit,
            ShellRequest::Output(t) => RequestView::Output(t@),
            ShellRequest::ErrorOutput(t) => RequestView::ErrorOutput(t@),
            ShellRequest::TypeLookup(n) => RequestView::TypeLookup(n@),
            ShellRequest::Pwd => RequestView::Pwd,
            ShellRequest::ChangeDir { target, home_first, error } => RequestView::ChangeDir(
                target@,
                *home_first,
                error@,
            ),
            ShellRequest::HistoryRead(f) => RequestView::HistoryRead(f@),
            ShellRequest::HistoryWrite(f) => RequestView::HistoryWrite(f@),
            ShellRequest::HistoryList(n) => RequestView::HistoryList(
                match n {
                    Some(t) => Some(t@),
                    None => None,
                },
            ),
            ShellRequest::External { name, args } => RequestView::External(
                name@,
                strings_view(args@),
            ),
        }
    }
}

/// What the interactive shell does with the words `args`.
pub open spec fn request_spec(args: Seq<Seq<char>>) -> RequestView {
    if args.len() == 0 {
        RequestView::Nothing
    } else if args[0] == "exit"@ {
        RequestView::Exit
    } else if args[0] == "echo"@ {
        RequestView::Output(join_spaced(args.skip(1)))
    } else if args[0] == "type"@ {
        if args.len() < 2 {
            RequestView::Output("mention the command."@)
        } else if is_shell_builtin_name(args[1]) {
            RequestView::Output(args[1] + " is a shell builtin"@)
        } else {
            RequestView::TypeLookup(args[1])
        }
    } else if args[0] == "pwd"@ {
        RequestView::Pwd
    } else if args[0] == "cd"@ {
        if args.len() < 2 {
            RequestView::ErrorOutput("cd: missing argument"@)
        } else {
            RequestView::ChangeDir(
                args[1],
                args[1] == "~"@,
                args[0] + ": "@ + args[1] + ": No such file or directory"@,
            )
        }
    } else if args[0] == "history"@ {
        if args.len() > 2 && args[1] == "-r"@ {
            RequestView::HistoryRead(args[2])
        } else if args.len() > 2 && args[1] == "-w"@ {
            RequestView::HistoryWrite(args[2])
        } else if args.len() > 1 {
            RequestView::HistoryList(Some(args[1]))
        } else {
            RequestView::HistoryList(None)
        }
    } else {
        RequestView::External(args[0], args.skip(1))
    }
}

/// What the interactive shell does with the words `args`: its builtins
/// `exit`, `echo`, `type`, `pwd`, `cd` and `history`, or a program to run.
pub fn classify(args: &Vec<String>) -> (res: ShellRequest)
    ensures
        res@ == request_spec(strings_view(args@)),
        args@.len() >= 2 && args@[0]@ == "cd"@ ==> (res@ matches RequestView::ChangeDir(
            target,
            home_first,
            _,
        ) && target == args@[1]@ && (home_first <==> args@[1]@ == "~"@)),
{
    let ghost ws = strings_view(args@);
    proof {
        crate::text::lemma_builtin_names_differ();
    }
    if args.len() == 0 {
        return ShellRequest::Nothing;
    }
    assert(ws[0] == args@[0]@);
    proof {
        if args@.len() > 1 {
            assert(ws[1] == args@[1]@);
        }
        if args@.len() > 2 {
            assert(ws[2] == args@[2]@);
        }
    }
    let first = args[0].as_str();
    if str_eq(first, "exit") {
        ShellRequest::Exit
    } else if str_eq(first, "echo") {
        ShellRequest::Output(join_spaced_from(args, 1))
    } else if str_eq(first, "type") {
        if args.len() < 2 {
            return ShellRequest::Output(String::from_str("mention the command."));
        }
        let cmd = args[1].as_str();
        if is_shell_builtin(cmd) {
            let mut msg = String::from_str(cmd);
            msg.append(" is a shell builtin");
            ShellRequest::Output(msg)
        } else {
            ShellRequest::TypeLookup(String::from_str(cmd))
        }
    } else if str_eq(first, "pwd") {
        ShellRequest::Pwd
    } else if str_eq(first, "cd") {
        if args.len() < 2 {
            return ShellRequest::ErrorOutput(String::from_str("cd: missing argument"));
        }
        let target = args[1].as_str();
        let mut error = String::from_str(first);
        error.append(": ");
        error.append(target);
        error.append(": No such file or directory");
        ShellRequest::ChangeDir {
            target: String::from_str(target),
            home_first: str_eq(target, "~"),
            error,
        }
    } else if str_eq(first, "history") {
        if args.len() > 2 && str_eq(args[1].as_str(), "-r") {
            ShellRequest::HistoryRead(args[2].clone())
        } else if args.len() > 2 && str_eq(args[1].as_str(), "-w") {
            ShellRequest::HistoryWrite(args[2].clone())
        } else if args.len() > 1 {
            ShellRequest::HistoryList(Some(args[1].clone()))
        } else {
            ShellRequest::HistoryList(None)
        }
    } else {
        ShellRequest::External { name: args[0].clone(), args: strings_from(args, 1) }
    }
}

/// `cd` goes to the home directory first exactly when its argument is
/// `~`; any other argument, relative or absolute, is the directory to go
/// to; without an argument it reports the missing argument.
pub proof fn law_cd_home_only_for_tilde(args: Seq<Seq<char>>)
    requires
        args.len() > 0,
        args[0] == "cd"@,
    ensures
        args.len() >= 2 ==> (request_spec(args) matches RequestView::ChangeDir(t, h, _) && t
            == args[1] && (h <==> args[1] == "~"@)),
        args.len() < 2 ==> request_spec(args) is ErrorOutput,
{
    crate::text::lemma_builtin_names_differ();
}

/// `exit` leaves the shell whatever follows it; `echo w` prints `w`;
/// `pwd` prints the directory; `history -r f` reads `f`, `history -w f`
/// writes `f`, `history n` lists with the argument `n`; `type` of a
/// builtin (`history` included) says it is one, of another command looks it
/// up.
pub proof fn law_shell_requests(rest: Seq<Seq<char>>, w: Seq<char>, f: Seq<char>)
    ensures
        request_spec(seq!["exit"@] + rest) == RequestView::Exit,
        request_spec(seq!["echo"@, w]) == RequestView::Output(w),
        request_spec(seq!["pwd"@] + rest) == RequestView::Pwd,
        request_spec(seq!["history"@, "-r"@, f]) == RequestView::HistoryRead(f),
        request_spec(seq!["history"@, "-w"@, f]) == RequestView::HistoryWrite(f),
        request_spec(seq!["history"@, w]) == RequestView::HistoryList(Some(w)),
        request_spec(seq!["history"@]) == RequestView::HistoryList(None),
        request_spec(seq!["type"@, "history"@]) == RequestView::Output(
            "history"@ + " is a shell builtin"@,
        ),
        !is_shell_builtin_name(w) ==> request_spec(seq!["type"@, w]) == RequestView::TypeLookup(
            w,
        ),
{
    crate::text::lemma_builtin_names_differ();
    reveal_strlit("-r");
    reveal_strlit("-w");
    assert("-r"@[1] == 'r' && "-w"@[1] == 'w');
    assert((seq!["exit"@] + rest)[0] == "exit"@);
    assert((seq!["pwd"@] + rest)[0] == "pwd"@);
    assert(seq!["echo"@, w].skip(1) =~= seq![w]);
}

/// A program that is not a builtin runs with the words after the first as
/// its arguments, under the first word's name.
pub proof fn law_external_arguments(args: Seq<Seq<char>>)
    requires
        args.len() > 0,
        !is_shell_builtin_name(args[0]),
    ensures
        request_spec(args) == RequestView::External(args[0], args.skip(1)),
{
}

/// The message for a history file that could not be read.
pub fn history_read_error(file: &str) -> (res: String)
    ensures
        res@ == "history: "@ + file@ + ": cannot read file"@,
{
    let mut msg = String::from_str("history: ");
    msg.append(file);
    msg.append(": cannot read file");
    msg
}

/// How many of the `total` history entries are shown: the number given,
/// if it reads as a `usize`, else all of them.
pub open spec fn history_limit(total: usize, arg: Option<Seq<char>>) -> usize {
    match arg {
        Some(a) => match parse_usize_spec(a) {
            Some(n) => n,
            None => total,
        },
        None => total,
    }
}

/// The position of the first history entry that is listed.
pub open spec fn history_start_spec(total: usize, arg: Option<Seq<char>>) -> usize {
    if total > history_limit(total, arg) {
        (total - history_limit(total, arg)) as usize
    } else {
        0
    }
}

/// The position of the first of the `total` history entries that
/// `history` lists, given its argument: with a number `n` the last `n`
/// entries (all when there are fewer), otherwise all of them.
pub fn history_start(total: usize, arg: Option<&str>) -> (res: usize)
    ensures
        res == history_start_spec(
            total,
            match arg {
                Some(a) => Some(a@),
                None => None,
            },
        ),
{
    let limit = match arg {
        Some(a) => match parse_usize(a) {
            Some(n) => n,
            None => total,
        },
        None => total,
    };
    if total > limit {
        total - limit
    } else {
        0
    }
}

/// `history n` lists the last `n` entries, or all of them when there are
/// fewer; `history` alone, or with an argument that is no number, lists
/// them all.
pub proof fn law_history_lists_last_entries(total: usize, n: usize, other: Seq<char>)
    ensures
        history_start_spec(total, Some(decimal(n as nat))) == if n < total {
            total - n
        } else {
            0
        },
        history_start_spec(total, None) == 0,
        parse_usize_spec(other) is None ==> history_start_spec(total, Some(other)) == 0,
{
    crate::number::law_decimal_reads_back(n);
}

/// How `history` lists an entry: two spaces, its number, a space and the
/// entry.
pub open spec fn history_line_spec(number: nat, entry: Seq<char>) -> Seq<char> {
    seq![' ', ' '] + decimal(number) + seq![' '] + entry
}

/// The line that lists the history entry `entry`, numbered `number`.
pub fn history_line(number: usize, entry: &str) -> (res: String)
    ensures
        res@ == history_line_spec(number as nat, entry@),
{
    let mut line = String::new();
    line.push(' ');
    line.push(' ');
    push_decimal(&mut line, number);
    line.push(' ');
    line.append(entry);
    assert(line@ =~= history_line_spec(number as nat, entry@));
    line
}

/// A white space character, as `char::is_whitespace` defines it (the
/// Unicode `White_Space` property).
pub open spec fn is_white_space(c: char) -> bool {
    ('\t' <= c && c <= '\r') || c == ' ' || c == '\u{85}' || c == '\u{a0}' || c == '\u{1680}' || (
    '\u{2000}' <= c && c <= '\u{200a}') || c == '\u{2028}' || c == '\u{2029}' || c == '\u{202f}'
        || c == '\u{205f}' || c == '\u{3000}'
}

/// Whether `c` is a white space character.
pub fn white_space(c: char) -> (res: bool)
    ensures
        res == is_white_space(c),
{
    ('\t' <= c && c <= '\r') || c == ' ' || c == '\u{85}' || c == '\u{a0}' || c == '\u{1680}' || (
    '\u{2000}' <= c && c <= '\u{200a}') || c == '\u{2028}' || c == '\u{2029}' || c == '\u{202f}'
        || c == '\u{205f}' || c == '\u{3000}'
}

/// A text that trims to nothing: only white space.
pub open spec fn is_blank_text(s: Seq<char>) -> bool {
    forall|i: int| 0 <= i < s.len() ==> is_white_space(#[trigger] s[i])
}

/// A line with one carriage return at its end taken off.
pub open spec fn strip_cr(s: Seq<char>) -> Seq<char> {
    if s.len() > 0 && s.last() == '\r' {
        s.drop_last()
    } else {
        s
    }
}

/// The lines of `s`, as `str::lines` gives them: the text between line
/// feeds, a carriage return before a line feed dropped, and no last line
/// when `s` ends with a line feed.
pub open spec fn lines_spec(s: Seq<char>) -> Seq<Seq<char>> {
    let parts = split_on(s, '\n');
    let body = parts.drop_last().map_values(|p: Seq<char>| strip_cr(p));
    if parts.last().len() > 0 {
        body.push(parts.last())
    } else {
        body
    }
}

/// The lines of a history file that are added to the history: those that
/// are not blank.
pub open spec fn history_entries_spec(s: Seq<char>) -> Seq<Seq<char>> {
    lines_spec(s).filter(|l: Seq<char>| !is_blank_text(l))
}

fn blank_text(s: &str) -> (res: bool)
    ensures
        res == is_blank_text(s@),
{
    let cs = crate::text::chars_of(s);
    let mut i: usize = 0;
    while i < cs.len()
        invariant
            cs@ == s@,
            i <= cs@.len(),
            forall|j: int| 0 <= j < i ==> is_white_space(#[trigger] s@[j]),
        decreases cs@.len() - i,
    {
        if !white_space(cs[i]) {
            assert(!is_white_space(s@[i as int]));
            return false;
        }
        i = i + 1;
    }
    true
}

fn without_cr(s: &str) -> (res: String)
    ensures
        res@ == strip_cr(s@),
{
    let cs = crate::text::chars_of(s);
    if cs.len() > 0 && cs[cs.len() - 1] == '\r' {
        let mut out = String::new();
        let mut i: usize = 0;
        while i < cs.len() - 1
            invariant
                cs@ == s@,
                cs@.len() > 0,
                i <= cs@.len() - 1,
                out@ == s@.take(i as int),
            decreases cs@.len() - i,
        {
            out.push(cs[i]);
            i = i + 1;
            assert(out@ =~= s@.take(i as int));
        }
        assert(s@.take(i as int) =~= s@.drop_last());
        out
    } else {
        String::from_str(s)
    }
}

/// A text without line feeds is one line (none when it is empty); a line
/// feed ends the line before it, dropping one carriage return before it;
/// the text after the last line feed is the last line.
pub proof fn law_lines(l1: Seq<char>, l2: Seq<char>)
    requires
        forall|j: int| 0 <= j < l1.len() ==> l1[j] != '\n',
        forall|j: int| 0 <= j < l2.len() ==> l2[j] != '\n',
    ensures
        l2.len() > 0 ==> lines_spec(l2) == seq![l2],
        l2.len() == 0 ==> lines_spec(l2).len() == 0,
        lines_spec(l1 + seq!['\n'] + l2) == if l2.len() > 0 {
            seq![strip_cr(l1), l2]
        } else {
            seq![strip_cr(l1)]
        },
{
    crate::text::lemma_split_from_no_separator(l2, '\n', 0, Seq::empty(), Seq::empty());
    assert(Seq::<char>::empty() + l2.subrange(0, l2.len() as int) =~= l2);
    assert(split_on(l2, '\n') =~= seq![l2]);
    assert(split_on(l2, '\n').drop_last() =~= Seq::<Seq<char>>::empty());
    let s = l1 + seq!['\n'] + l2;
    let n1 = l1.len() as int;
    crate::text::lemma_split_prefix_no_separator(s, '\n', 0, n1, Seq::empty(), Seq::empty());
    assert(Seq::<char>::empty() + s.subrange(0, n1) =~= l1);
    assert(s[n1] == '\n');
    assert forall|j: int| n1 + 1 <= j < s.len() implies s[j] != '\n' by {
        assert(s[j] == l2[j - n1 - 1]);
    }
    crate::text::lemma_split_from_no_separator(s, '\n', n1 + 1, Seq::empty(), seq![l1]);
    assert(Seq::<char>::empty() + s.subrange(n1 + 1, s.len() as int) =~= l2);
    assert(split_on(s, '\n') =~= seq![l1, l2]);
    assert(seq![l1, l2].drop_last() =~= seq![l1]);
    assert(seq![l1].map_values(|p: Seq<char>| strip_cr(p)) =~= seq![strip_cr(l1)]);
    assert(seq![strip_cr(l1)].push(l2) =~= seq![strip_cr(l1), l2]);
}

/// The entries a history file adds to the history: its lines (as
/// `str::lines` splits them) that are not blank, in order.
pub fn history_entries(contents: &str) -> (res: Vec<String>)
    ensures
        strings_view(res@) == history_entries_spec(contents@),
{
    let parts = split_on_char(contents, '\n');
    let ghost ps = strings_view(parts@);
    let ghost lines = lines_spec(contents@);
    let ghost keep = |l: Seq<char>| !is_blank_text(l);
    let n = parts.len();
    assert(n >= 1) by {
        crate::text::lemma_split_nonempty(contents@, '\n');
    }
    let mut res: Vec<String> = Vec::new();
    let mut k: usize = 0;
    assert(lines.take(0).filter(keep) =~= Seq::<Seq<char>>::empty()) by {
        reveal_with_fuel(Seq::<_>::filter, 1);
    }
    assert(strings_view(res@) =~= Seq::<Seq<char>>::empty());
    // every part but the last ends a line; the last is a line when it is
    // not empty
    let last_is_line = !parts[n - 1].as_str().is_empty();
    let line_count: usize = if last_is_line {
        n
    } else {
        n - 1
    };
    assert(lines.len() == line_count);
    while k < line_count
        invariant
            ps == strings_view(parts@),
            ps == split_on(contents@, '\n'),
            lines == lines_spec(contents@),
            keep == (|l: Seq<char>| !is_blank_text(l)),
            n == parts@.len(),
            n >= 1,
            line_count == lines.len(),
            line_count <= n,
            last_is_line == (ps.last().len() > 0),
            k <= line_count,
            strings_view(res@) == lines.take(k as int).filter(keep),
        decreases line_count - k,
    {
        let line = if k + 1 < n {
            without_cr(parts[k].as_str())
        } else {
            parts[k].clone()
        };
        assert(line@ == lines[k as int]) by {
            assert(ps[k as int] == parts@[k as int]@);
        }
        let ghost before = strings_view(res@);
        assert(lines.take(k + 1).drop_last() =~= lines.take(k as int));
        assert(lines.take(k + 1).last() == lines[k as int]);
        if !blank_text(line.as_str()) {
            res.push(line);
            assert(strings_view(res@) =~= before.push(lines[k as int]));
            assert(keep(lines[k as int]));
            assert(strings_view(res@) == lines.take(k + 1).filter(keep)) by {
                reveal_with_fuel(Seq::<_>::filter, 1);
            }
        } else {
            assert(!keep(lines[k as int]));
            assert(strings_view(res@) == lines.take(k + 1).filter(keep)) by {
                reveal_with_fuel(Seq::<_>::filter, 1);
            }
        }
        k = k + 1;
    }
    assert(lines.take(line_count as int) =~= lines);
    res
}

} // verus!
