use vstd::prelude::*;

use crate::text::{str_eq, strings_view};

verus! {

/// A command's words with its output redirections taken out.
pub struct Redirection {
    /// The words of the command, without the redirections.
    pub clean_args: Vec<String>,
    /// The file that standard output goes to (`> file` or `1> file`).
    pub stdout_file: Option<String>,
    /// The file that standard error goes to (`2> file`).
    pub stderr_file: Option<String>,
}

/// A redirection operator at the end of the words, with no file after it.
#[derive(PartialEq, Eq, Structural, Clone, Copy, Debug)]
pub enum RedirectionError {
    /// `>` or `1>` is the last word.
    MissingStdoutFile,
    /// `2>` is the last word.
    MissingStderrFile,
}

/// Where the text of a builtin goes.
pub enum Sink {
    /// The terminal's standard output.
    Stdout,
    /// A file, created or truncated before it is written.
    File(String),
}

/// The contents of an optional string.
pub open spec fn opt_view(o: Option<String>) -> Option<Seq<char>> {
    match o {
        Some(s) => Some(s@),
        None => None,
    }
}

impl View for Redirection {
    type V = (Seq<Seq<char>>, Option<Seq<char>>, Option<Seq<char>>);

    open spec fn view(&self) -> Self::V {
        (strings_view(self.clean_args@), opt_view(self.stdout_file), opt_view(self.stderr_file))
    }
}

/// A word that redirects standard output.
pub open spec fn is_stdout_op(w: Seq<char>) -> bool {
    w == ">"@ || w == "1>"@
}

/// A word that redirects standard error.
pub open spec fn is_stderr_op(w: Seq<char>) -> bool {
    w == "2>"@
}

/// The words, the standard output file and the standard error file.
pub type StreamsView = (Seq<Seq<char>>, Option<Seq<char>>, Option<Seq<char>>);

/// The scan of the words from position `i` on, given what the words before
/// it gave (`st`): the redirections found and, when a redirection operator
/// has no file after it, the error at which the scan stopped.
pub open spec fn streams_from(args: Seq<Seq<char>>, i: int, st: StreamsView) -> (
    StreamsView,
    Option<RedirectionError>,
)
    decreases args.len() - i,
{
    if i < 0 || i >= args.len() {
        (st, None)
    } else if is_stdout_op(args[i]) {
        if i + 1 < args.len() {
            streams_from(args, i + 2, (st.0, Some(args[i + 1]), st.2))
        } else {
            (st, Some(RedirectionError::MissingStdoutFile))
        }
    } else if is_stderr_op(args[i]) {
        if i + 1 < args.len() {
            streams_from(args, i + 2, (st.0, st.1, Some(args[i + 1])))
        } else {
            (st, Some(RedirectionError::MissingStderrFile))
        }
    } else {
        streams_from(args, i + 1, (st.0.push(args[i]), st.1, st.2))
    }
}

/// The redirections of a command's words, and the syntax error if any.
pub open spec fn streams_spec(args: Seq<Seq<char>>) -> (StreamsView, Option<RedirectionError>) {
    streams_from(args, 0, (Seq::empty(), None, None))
}

impl RedirectionError {
    /// The message the shell prints for this error.
    pub fn message(&self) -> (res: String)
        ensures
            *self == RedirectionError::MissingStdoutFile ==> res@
                == "Syntax error: no file after >"@,
            *self == RedirectionError::MissingStderrFile ==> res@
                == "Syntax error: no file after 2>"@,
    {
        match self {
            RedirectionError::MissingStdoutFile => String::from_str(
                "Syntax error: no file after >",
            ),
            RedirectionError::MissingStderrFile => String::from_str(
                "Syntax error: no file after 2>",
            ),
        }
    }
}

impl Redirection {
    /// Takes the redirections `> file`, `1> file` and `2> file` out of a
    /// command's words, and reports a redirection operator that ends the
    /// words.
    ///
    /// The words are scanned from left to right; a later redirection of
    /// the same stream replaces an earlier one. An operator without a file
    /// after it stops the scan: the result then holds what was found before
    /// it, and the error says which operator it was.
    pub fn parse_streams_checked(args: Vec<String>) -> (res: (Self, Option<RedirectionError>))
        ensures
            (res.0@, res.1) == streams_spec(strings_view(args@)),
    {
        let ghost words = strings_view(args@);
        let mut clean_args: Vec<String> = Vec::new();
        let mut stdout_file: Option<String> = None;
        let mut stderr_file: Option<String> = None;
        let mut i: usize = 0;
        assert(strings_view(clean_args@) =~= Seq::empty());
        while i < args.len()
            invariant
                words == strings_view(args@),
                i <= args@.len(),
                streams_from(
                    words,
                    i as int,
                    (strings_view(clean_args@), opt_view(stdout_file), opt_view(stderr_file)),
                ) == streams_spec(words),
            decreases args@.len() - i,
        {
            let word = args[i].as_str();
            assert(words[i as int] == word@);
            if str_eq(word, ">") || str_eq(word, "1>") {
                if i + 1 < args.len() {
                    assert(words[i + 1] == args@[i + 1]@);
                    stdout_file = Some(args[i + 1].clone());
                    i = i + 2;
                } else {
                    let r = Redirection { clean_args, stdout_file, stderr_file };
                    return (r, Some(RedirectionError::MissingStdoutFile));
                }
            } else if str_eq(word, "2>") {
                if i + 1 < args.len() {
                    assert(words[i + 1] == args@[i + 1]@);
                    stderr_file = Some(args[i + 1].clone());
                    i = i + 2;
                } else {
                    let r = Redirection { clean_args, stdout_file, stderr_file };
                    return (r, Some(RedirectionError::MissingStderrFile));
                }
            } else {
                let ghost before = strings_view(clean_args@);
                clean_args.push(args[i].clone());
                assert(strings_view(clean_args@) =~= before.push(word@));
                i = i + 1;
            }
        }
        (Redirection { clean_args, stdout_file, stderr_file }, None)
    }

    /// Takes the redirections out of a command's words; see
    /// `parse_streams_checked`, which also reports a missing file.
    pub fn parse_streams(args: Vec<String>) -> (res: Self)
        ensures
            res@ == streams_spec(strings_view(args@)).0,
    {
        let (r, _error) = Self::parse_streams_checked(args);
        r
    }

    /// Where the output of a builtin goes: the standard output file when
    /// there is one, else the terminal. The text is written with a newline
    /// after it.
    pub fn builtin_output_sink(&self) -> (res: Sink)
        ensures
            match res {
                Sink::Stdout => self.stdout_file is None,
                Sink::File(f) => opt_view(self.stdout_file) == Some(f@),
            },
    {
        match &self.stdout_file {
            Some(f) => Sink::File(f.clone()),
            None => Sink::Stdout,
        }
    }

    /// Where the error messages of a builtin go: the standard error file
    /// when there is one, else the terminal's standard output. The text is
    /// written with a newline after it.
    pub fn builtin_error_sink(&self) -> (res: Sink)
        ensures
            match res {
                Sink::Stdout => self.stderr_file is None,
                Sink::File(f) => opt_view(self.stderr_file) == Some(f@),
            },
    {
        match &self.stderr_file {
            Some(f) => Sink::File(f.clone()),
            None => Sink::Stdout,
        }
    }
}

proof fn lemma_streams_clean_words(args: Seq<Seq<char>>, i: int, st: StreamsView)
    requires
        forall|k: int|
            0 <= k < st.0.len() ==> !is_stdout_op(#[trigger] st.0[k]) && !is_stderr_op(st.0[k]),
    ensures
        forall|k: int|
            0 <= k < streams_from(args, i, st).0.0.len() ==> !is_stdout_op(
                #[trigger] streams_from(args, i, st).0.0[k],
            ) && !is_stderr_op(streams_from(args, i, st).0.0[k]),
    decreases args.len() - i,
{
    if 0 <= i < args.len() {
        if is_stdout_op(args[i]) {
            if i + 1 < args.len() {
                let next = (st.0, Some(args[i + 1]), st.2);
                lemma_streams_clean_words(args, i + 2, next);
                assert(streams_from(args, i, st) == streams_from(args, i + 2, next));
            } else {
                assert(streams_from(args, i, st).0 == st);
            }
        } else if is_stderr_op(args[i]) {
            if i + 1 < args.len() {
                let next = (st.0, st.1, Some(args[i + 1]));
                lemma_streams_clean_words(args, i + 2, next);
                assert(streams_from(args, i, st) == streams_from(args, i + 2, next));
            } else {
                assert(streams_from(args, i, st).0 == st);
            }
        } else {
            let words = st.0.push(args[i]);
            assert forall|k: int| 0 <= k < words.len() implies !is_stdout_op(#[trigger] words[k])
                && !is_stderr_op(words[k]) by {
                if k < st.0.len() {
                    assert(words[k] == st.0[k]);
                }
            }
            let next = (words, st.1, st.2);
            lemma_streams_clean_words(args, i + 1, next);
            assert(streams_from(args, i, st) == streams_from(args, i + 1, next));
        }
    } else {
        assert(streams_from(args, i, st).0 == st);
    }
}

/// The words left after taking the redirections out hold no redirection
/// operator.
pub proof fn law_clean_words_hold_no_operator(args: Seq<Seq<char>>)
    ensures
        forall|k: int|
            0 <= k < streams_spec(args).0.0.len() ==> !is_stdout_op(
                #[trigger] streams_spec(args).0.0[k],
            ) && !is_stderr_op(streams_spec(args).0.0[k]),
{
    lemma_streams_clean_words(args, 0, (Seq::empty(), None, None));
}

proof fn lemma_streams_no_operator(args: Seq<Seq<char>>, i: int, st: StreamsView)
    requires
        0 <= i <= args.len(),
        forall|k: int| 0 <= k < args.len() ==> !is_stdout_op(#[trigger] args[k]) && !is_stderr_op(
            args[k],
        ),
    ensures
        streams_from(args, i, st) == ((st.0 + args.subrange(i, args.len() as int), st.1, st.2), None::<
            RedirectionError,
        >),
    decreases args.len() - i,
{
    if i < args.len() {
        lemma_streams_no_operator(args, i + 1, (st.0.push(args[i]), st.1, st.2));
        assert(st.0.push(args[i]) + args.subrange(i + 1, args.len() as int) =~= st.0
            + args.subrange(i, args.len() as int));
    } else {
        assert(st.0 + args.subrange(i, args.len() as int) =~= st.0);
    }
}

/// Words without redirection operators are kept as they are, with no
/// redirection and no error.
pub proof fn law_words_without_operators_kept(args: Seq<Seq<char>>)
    requires
        forall|k: int| 0 <= k < args.len() ==> !is_stdout_op(#[trigger] args[k]) && !is_stderr_op(
            args[k],
        ),
    ensures
        streams_spec(args) == ((args, None::<Seq<char>>, None::<Seq<char>>), None::<
            RedirectionError,
        >),
{
    lemma_streams_no_operator(args, 0, (Seq::empty(), None, None));
    assert(Seq::<Seq<char>>::empty() + args.subrange(0, args.len() as int) =~= args);
}

proof fn lemma_streams_error_at_end(args: Seq<Seq<char>>, i: int, st: StreamsView)
    ensures
        streams_from(args, i, st).1 == Some(RedirectionError::MissingStdoutFile) ==> args.len()
            > 0 && is_stdout_op(args.last()),
        streams_from(args, i, st).1 == Some(RedirectionError::MissingStderrFile) ==> args.len()
            > 0 && is_stderr_op(args.last()),
    decreases args.len() - i,
{
    if 0 <= i < args.len() {
        if is_stdout_op(args[i]) {
            if i + 1 < args.len() {
                lemma_streams_error_at_end(args, i + 2, (st.0, Some(args[i + 1]), st.2));
            }
        } else if is_stderr_op(args[i]) {
            if i + 1 < args.len() {
                lemma_streams_error_at_end(args, i + 2, (st.0, st.1, Some(args[i + 1])));
            }
        } else {
            lemma_streams_error_at_end(args, i + 1, (st.0.push(args[i]), st.1, st.2));
        }
    }
}

/// A missing redirection file is reported only when the last word is the
/// operator that lacks it.
pub proof fn law_missing_file_only_at_end(args: Seq<Seq<char>>)
    ensures
        streams_spec(args).1 == Some(RedirectionError::MissingStdoutFile) ==> args.len() > 0
            && is_stdout_op(args.last()),
        streams_spec(args).1 == Some(RedirectionError::MissingStderrFile) ==> args.len() > 0
            && is_stderr_op(args.last()),
{
    lemma_streams_error_at_end(args, 0, (Seq::empty(), None, None));
}

/// The three redirection operators are different words.
pub proof fn lemma_operators_differ()
    ensures
        ">"@ != "1>"@,
        ">"@ != "2>"@,
        "1>"@ != "2>"@,
{
    reveal_strlit(">");
    reveal_strlit("1>");
    reveal_strlit("2>");
    assert(">"@.len() == 1 && "1>"@.len() == 2 && "2>"@.len() == 2);
    assert("1>"@[0] == '1' && "2>"@[0] == '2');
}

proof fn lemma_streams_prefix(args: Seq<Seq<char>>, t: Seq<Seq<char>>, i: int, st: StreamsView)
    requires
        0 <= i <= args.len(),
        streams_from(args, i, st).1 is None,
    ensures
        streams_from(args + t, i, st) == streams_from(
            args + t,
            args.len() as int,
            streams_from(args, i, st).0,
        ),
    decreases args.len() - i,
{
    let u = args + t;
    if i < args.len() {
        assert(u[i] == args[i]);
        if is_stdout_op(args[i]) {
            assert(i + 1 < args.len());
            assert(u[i + 1] == args[i + 1]);
            lemma_streams_prefix(args, t, i + 2, (st.0, Some(args[i + 1]), st.2));
        } else if is_stderr_op(args[i]) {
            assert(i + 1 < args.len());
            assert(u[i + 1] == args[i + 1]);
            lemma_streams_prefix(args, t, i + 2, (st.0, st.1, Some(args[i + 1])));
        } else {
            lemma_streams_prefix(args, t, i + 1, (st.0.push(args[i]), st.1, st.2));
        }
    }
}

/// Scanning the words one more word or redirection at a time, after words
/// that scanned without error: an ordinary word is kept at the end of the
/// command; `>` or `1>` followed by a file sends standard output there,
/// and `2>` followed by a file sends standard error there, whatever came
/// before; an operator with nothing after it is reported and changes
/// nothing.
pub proof fn law_streams_step(args: Seq<Seq<char>>, w: Seq<char>, f: Seq<char>)
    requires
        streams_spec(args).1 is None,
    ensures
        ({
            let st = streams_spec(args).0;
            &&& !is_stdout_op(w) && !is_stderr_op(w) ==> streams_spec(args + seq![w]) == (
                (st.0.push(w), st.1, st.2),
                None::<RedirectionError>,
            )
            &&& streams_spec(args + seq![">"@, f]) == ((st.0, Some(f), st.2), None::<
                RedirectionError,
            >)
            &&& streams_spec(args + seq!["1>"@, f]) == ((st.0, Some(f), st.2), None::<
                RedirectionError,
            >)
            &&& streams_spec(args + seq!["2>"@, f]) == ((st.0, st.1, Some(f)), None::<
                RedirectionError,
            >)
            &&& streams_spec(args + seq![">"@]) == (st, Some(RedirectionError::MissingStdoutFile))
            &&& streams_spec(args + seq!["2>"@]) == (st, Some(RedirectionError::MissingStderrFile))
        }),
{
    lemma_operators_differ();
    let st = streams_spec(args).0;
    let n = args.len() as int;
    let start: StreamsView = (Seq::empty(), None, None);
    assert(streams_spec(args) == (st, None::<RedirectionError>));
    let u1 = args + seq![w];
    lemma_streams_prefix(args, seq![w], 0, start);
    assert(u1[n] == w);
    if !is_stdout_op(w) && !is_stderr_op(w) {
        assert(streams_from(u1, n, st) == streams_from(u1, n + 1, (st.0.push(w), st.1, st.2)));
    }
    let u2 = args + seq![">"@, f];
    lemma_streams_prefix(args, seq![">"@, f], 0, start);
    assert(u2[n] == ">"@ && u2[n + 1] == f);
    assert(streams_from(u2, n, st) == streams_from(u2, n + 2, (st.0, Some(f), st.2)));
    let u3 = args + seq!["1>"@, f];
    lemma_streams_prefix(args, seq!["1>"@, f], 0, start);
    assert(u3[n] == "1>"@ && u3[n + 1] == f);
    assert(streams_from(u3, n, st) == streams_from(u3, n + 2, (st.0, Some(f), st.2)));
    let u4 = args + seq!["2>"@, f];
    lemma_streams_prefix(args, seq!["2>"@, f], 0, start);
    assert(u4[n] == "2>"@ && u4[n + 1] == f);
    assert(!is_stdout_op(u4[n]));
    assert(streams_from(u4, n, st) == streams_from(u4, n + 2, (st.0, st.1, Some(f))));
    let u5 = args + seq![">"@];
    lemma_streams_prefix(args, seq![">"@], 0, start);
    assert(u5[n] == ">"@);
    let u6 = args + seq!["2>"@];
    lemma_streams_prefix(args, seq!["2>"@], 0, start);
    assert(u6[n] == "2>"@);
    assert(!is_stdout_op(u6[n]));
}

} // verus!
