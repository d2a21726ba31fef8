use vstd::prelude::*;

use crate::text::{chars_of, split_on, split_on_char, strings_view, lemma_split_from_no_separator, law_split_pieces};

verus! {

/// A space or a tab: the characters that separate unquoted words.
pub open spec fn is_blank(c: char) -> bool {
    c == ' ' || c == '\t'
}

/// The characters that a backslash escapes inside double quotes.
pub open spec fn escapable_in_double_quotes(c: char) -> bool {
    c == '"' || c == '\\' || c == '$' || c == '`'
}

/// The state of the word splitter: the position reached, whether a single
/// or a double quote is open, the word read so far and the finished words.
pub type LexState = (int, bool, bool, Seq<char>, Seq<Seq<char>>);

/// One step of the word splitter at position `st.0` (which must lie inside
/// `s`): it consumes one character, or a backslash with the character it
/// escapes.
pub open spec fn lex_step(s: Seq<char>, st: LexState) -> LexState {
    let (i, single, double, cur, args) = st;
    let c = s[i];
    if c == '\\' && !single && !double {
        // an unquoted backslash keeps the next character, whatever it is
        if i + 1 < s.len() {
            (i + 2, single, double, cur.push(s[i + 1]), args)
        } else {
            (i + 1, single, double, cur, args)
        }
    } else if c == '\\' && double {
        if i + 1 < s.len() && escapable_in_double_quotes(s[i + 1]) {
            (i + 2, single, double, cur.push(s[i + 1]), args)
        } else {
            (i + 1, single, double, cur.push('\\'), args)
        }
    } else if c == '\'' && !double {
        (i + 1, !single, double, cur, args)
    } else if c == '"' && !single {
        (i + 1, single, !double, cur, args)
    } else if is_blank(c) && !single && !double {
        if cur.len() > 0 {
            (i + 1, single, double, Seq::empty(), args.push(cur))
        } else {
            (i + 1, single, double, cur, args)
        }
    } else {
        (i + 1, single, double, cur.push(c), args)
    }
}

/// The words that the line `s` splits into, when the splitter is in state
/// `st`.
pub open spec fn lex(s: Seq<char>, st: LexState) -> Seq<Seq<char>>
    decreases s.len() - st.0,
{
    if st.0 < 0 || st.0 >= s.len() {
        if st.3.len() > 0 {
            st.4.push(st.3)
        } else {
            st.4
        }
    } else {
        lex(s, lex_step(s, st))
    }
}

/// The words a command line splits into.
pub open spec fn parse_spec(s: Seq<char>) -> Seq<Seq<char>> {
    lex(s, (0, false, false, Seq::empty(), Seq::empty()))
}

/// Splits a command line into words, as a POSIX shell does.
///
/// Blanks (spaces and tabs) separate words; single quotes keep everything
/// up to the closing quote literally; double quotes keep blanks and let a
/// backslash escape `"`, `\`, `$` and `` ` ``; an unquoted backslash keeps
/// the character after it. Empty words are dropped.
pub fn parse_input(input: &str) -> (args: Vec<String>)
    ensures
        strings_view(args@) == parse_spec(input@),
        forall|k: int| 0 <= k < args@.len() ==> (#[trigger] args@[k])@.len() > 0,
{
    let cs = chars_of(input);
    let n = cs.len();
    let ghost s = input@;
    let mut args: Vec<String> = Vec::new();
    let mut current = String::new();
    let mut in_single_quote = false;
    let mut in_double_quote = false;
    let mut i: usize = 0;
    assert(strings_view(args@) =~= Seq::empty());
    while i < n
        invariant
            n == cs@.len(),
            cs@ == s,
            s == input@,
            i <= n,
            lex(s, (i as int, in_single_quote, in_double_quote, current@, strings_view(args@)))
                == parse_spec(s),
            forall|k: int| 0 <= k < args@.len() ==> (#[trigger] args@[k])@.len() > 0,
        decreases n - i,
    {
        let c = cs[i];
        i = i + 1;
        if c == '\\' && !in_single_quote && !in_double_quote {
            if i < n {
                current.push(cs[i]);
                i = i + 1;
            }
        } else if c == '\\' && in_double_quote {
            if i < n && (cs[i] == '"' || cs[i] == '\\' || cs[i] == '$' || cs[i] == '`') {
                current.push(cs[i]);
                i = i + 1;
            } else {
                current.push('\\');
            }
        } else if c == '\'' && !in_double_quote {
            in_single_quote = !in_single_quote;
        } else if c == '"' && !in_single_quote {
            in_double_quote = !in_double_quote;
        } else if (c == ' ' || c == '\t') && !in_single_quote && !in_double_quote {
            if !current.as_str().is_empty() {
                let ghost before = strings_view(args@);
                args.push(current);
                current = String::new();
                assert(strings_view(args@) =~= before.push(args@.last()@));
            }
            // a run of blanks separates words just once
            let ghost entry = i;
            while i < n && (cs[i] == ' ' || cs[i] == '\t')
                invariant
                    entry <= i,
                    n == cs@.len(),
                    cs@ == s,
                    s == input@,
                    i <= n,
                    !in_single_quote,
                    !in_double_quote,
                    current@.len() == 0,
                    lex(s, (i as int, false, false, current@, strings_view(args@))) == parse_spec(
                        s,
                    ),
                    forall|k: int| 0 <= k < args@.len() ==> (#[trigger] args@[k])@.len() > 0,
                decreases n - i,
            {
                i = i + 1;
            }
        } else {
            current.push(c);
        }
    }
    if !current.as_str().is_empty() {
        let ghost before = strings_view(args@);
        args.push(current);
        assert(strings_view(args@) =~= before.push(args@.last()@));
    }
    args
}

proof fn lemma_lex_words_nonempty(s: Seq<char>, st: LexState)
    requires
        forall|k: int| 0 <= k < st.4.len() ==> (#[trigger] st.4[k]).len() > 0,
    ensures
        forall|k: int|
            0 <= k < lex(s, st).len() ==> (#[trigger] lex(s, st)[k]).len() > 0,
    decreases s.len() - st.0,
{
    if st.0 < 0 || st.0 >= s.len() {
        let r = lex(s, st);
        assert forall|k: int| 0 <= k < r.len() implies (#[trigger] r[k]).len() > 0 by {
            if k < st.4.len() {
                assert(r[k] == st.4[k]);
            } else {
                assert(r[k] == st.3);
            }
        }
    } else {
        let next = lex_step(s, st);
        assert forall|k: int| 0 <= k < next.4.len() implies (#[trigger] next.4[k]).len() > 0 by {
            if k < st.4.len() {
                assert(next.4[k] == st.4[k]);
            }
        }
        lemma_lex_words_nonempty(s, next);
        assert(lex(s, st) == lex(s, next));
    }
}

/// No word of a parsed line is empty: quotes that enclose nothing and
/// runs of blanks give no word.
pub proof fn law_parsed_words_nonempty(s: Seq<char>)
    ensures
        forall|k: int| 0 <= k < parse_spec(s).len() ==> (#[trigger] parse_spec(s)[k]).len() > 0,
{
    lemma_lex_words_nonempty(s, (0, false, false, Seq::empty(), Seq::empty()));
}

/// A line with no quote and no backslash.
pub open spec fn is_plain(s: Seq<char>) -> bool {
    forall|j: int| 0 <= j < s.len() ==> s[j] != '\\' && s[j] != '\'' && s[j] != '"'
}

/// The runs of non-blank characters of `s` from position `i` on, where
/// `cur` is the run begun before `i` and `acc` the runs already closed.
pub open spec fn blank_runs(
    s: Seq<char>,
    i: int,
    cur: Seq<char>,
    acc: Seq<Seq<char>>,
) -> Seq<Seq<char>>
    decreases s.len() - i,
{
    if i < 0 || i >= s.len() {
        if cur.len() > 0 {
            acc.push(cur)
        } else {
            acc
        }
    } else if is_blank(s[i]) {
        if cur.len() > 0 {
            blank_runs(s, i + 1, Seq::empty(), acc.push(cur))
        } else {
            blank_runs(s, i + 1, cur, acc)
        }
    } else {
        blank_runs(s, i + 1, cur.push(s[i]), acc)
    }
}

/// The maximal runs of characters of `s` that hold no space or tab, in
/// order.
pub open spec fn blank_separated_words(s: Seq<char>) -> Seq<Seq<char>> {
    blank_runs(s, 0, Seq::empty(), Seq::empty())
}

proof fn lemma_lex_plain(s: Seq<char>, i: int, cur: Seq<char>, args: Seq<Seq<char>>)
    requires
        is_plain(s),
        0 <= i,
    ensures
        lex(s, (i, false, false, cur, args)) == blank_runs(s, i, cur, args),
    decreases s.len() - i,
{
    if i < s.len() {
        let next = lex_step(s, (i, false, false, cur, args));
        if is_blank(s[i]) {
            if cur.len() > 0 {
                lemma_lex_plain(s, i + 1, Seq::empty(), args.push(cur));
            } else {
                lemma_lex_plain(s, i + 1, cur, args);
            }
        } else {
            lemma_lex_plain(s, i + 1, cur.push(s[i]), args);
        }
        assert(next.0 == i + 1 && !next.1 && !next.2);
    }
}

/// On a line without quotes or backslashes, parsing splits the line at
/// runs of spaces and tabs and keeps the non-empty words.
pub proof fn law_plain_line_splits_at_blanks(s: Seq<char>)
    requires
        is_plain(s),
    ensures
        parse_spec(s) == blank_separated_words(s),
{
    lemma_lex_plain(s, 0, Seq::empty(), Seq::empty());
}

proof fn lemma_lex_inside_single_quotes(
    s: Seq<char>,
    i: int,
    k: int,
    cur: Seq<char>,
    args: Seq<Seq<char>>,
)
    requires
        0 <= i <= k <= s.len(),
        forall|j: int| i <= j < k ==> s[j] != '\'',
    ensures
        lex(s, (i, true, false, cur, args)) == lex(
            s,
            (k, true, false, cur + s.subrange(i, k), args),
        ),
    decreases k - i,
{
    if i < k {
        lemma_lex_inside_single_quotes(s, i + 1, k, cur.push(s[i]), args);
        assert(cur.push(s[i]) + s.subrange(i + 1, k) =~= cur + s.subrange(i, k));
    } else {
        assert(cur + s.subrange(i, k) =~= cur);
    }
}

/// A non-empty text without single quotes, put between single quotes,
/// parses to that one word, unchanged.
pub proof fn law_single_quotes_keep_text(t: Seq<char>)
    requires
        t.len() > 0,
        forall|j: int| 0 <= j < t.len() ==> t[j] != '\'',
    ensures
        parse_spec(seq!['\''] + t + seq!['\'']) == seq![t],
{
    let s = seq!['\''] + t + seq!['\''];
    let n = s.len() as int;
    assert(s[0] == '\'');
    assert(lex(s, (0, false, false, Seq::empty(), Seq::empty())) == lex(
        s,
        (1, true, false, Seq::empty(), Seq::empty()),
    ));
    lemma_lex_inside_single_quotes(s, 1, n - 1, Seq::empty(), Seq::empty());
    assert(Seq::<char>::empty() + s.subrange(1, n - 1) =~= t);
    assert(s[n - 1] == '\'');
    assert(lex(s, (n - 1, true, false, t, Seq::empty())) == lex(
        s,
        (n, false, false, t, Seq::empty()),
    ));
    assert(seq![t] =~= Seq::<Seq<char>>::empty().push(t));
}

proof fn lemma_lex_inside_double_quotes(
    s: Seq<char>,
    i: int,
    k: int,
    cur: Seq<char>,
    args: Seq<Seq<char>>,
)
    requires
        0 <= i <= k <= s.len(),
        forall|j: int| i <= j < k ==> s[j] != '"' && s[j] != '\\',
    ensures
        lex(s, (i, false, true, cur, args)) == lex(
            s,
            (k, false, true, cur + s.subrange(i, k), args),
        ),
    decreases k - i,
{
    if i < k {
        lemma_lex_inside_double_quotes(s, i + 1, k, cur.push(s[i]), args);
        assert(cur.push(s[i]) + s.subrange(i + 1, k) =~= cur + s.subrange(i, k));
    } else {
        assert(cur + s.subrange(i, k) =~= cur);
    }
}

/// A non-empty text without double quotes and backslashes, put between
/// double quotes, parses to that one word, blanks and single quotes
/// included.
pub proof fn law_double_quotes_keep_text(t: Seq<char>)
    requires
        t.len() > 0,
        forall|j: int| 0 <= j < t.len() ==> t[j] != '"' && t[j] != '\\',
    ensures
        parse_spec(seq!['"'] + t + seq!['"']) == seq![t],
{
    let s = seq!['"'] + t + seq!['"'];
    let n = s.len() as int;
    assert(s[0] == '"');
    assert(lex(s, (0, false, false, Seq::empty(), Seq::empty())) == lex(
        s,
        (1, false, true, Seq::empty(), Seq::empty()),
    ));
    lemma_lex_inside_double_quotes(s, 1, n - 1, Seq::empty(), Seq::empty());
    assert(Seq::<char>::empty() + s.subrange(1, n - 1) =~= t);
    assert(s[n - 1] == '"');
    assert(lex(s, (n - 1, false, true, t, Seq::empty())) == lex(
        s,
        (n, false, false, t, Seq::empty()),
    ));
    assert(seq![t] =~= Seq::<Seq<char>>::empty().push(t));
}

/// Text that can stand in an unquoted word as it is: no blank, no quote,
/// no backslash.
pub open spec fn is_word_text(t: Seq<char>) -> bool {
    forall|j: int|
        0 <= j < t.len() ==> !is_blank(#[trigger] t[j]) && t[j] != '\\' && t[j] != '\'' && t[j]
            != '"'
}

proof fn lemma_lex_word_text(s: Seq<char>, i: int, k: int, cur: Seq<char>, args: Seq<Seq<char>>)
    requires
        0 <= i <= k <= s.len(),
        forall|j: int|
            i <= j < k ==> !is_blank(#[trigger] s[j]) && s[j] != '\\' && s[j] != '\'' && s[j]
                != '"',
    ensures
        lex(s, (i, false, false, cur, args)) == lex(
            s,
            (k, false, false, cur + s.subrange(i, k), args),
        ),
    decreases k - i,
{
    if i < k {
        lemma_lex_word_text(s, i + 1, k, cur.push(s[i]), args);
        assert(cur.push(s[i]) + s.subrange(i + 1, k) =~= cur + s.subrange(i, k));
    } else {
        assert(cur + s.subrange(i, k) =~= cur);
    }
}

/// An unquoted backslash is dropped and keeps the character after it,
/// whatever that is (a blank, a quote, a backslash or a letter): the text
/// `a\xb` is the one word `axb`.
pub proof fn law_unquoted_backslash_keeps_next(a: Seq<char>, x: char, b: Seq<char>)
    requires
        is_word_text(a),
        is_word_text(b),
    ensures
        parse_spec(a + seq!['\\', x] + b) == seq![a.push(x) + b],
{
    let s = a + seq!['\\', x] + b;
    let na = a.len() as int;
    let n = s.len() as int;
    assert forall|j: int| 0 <= j < na implies !is_blank(#[trigger] s[j]) && s[j] != '\\' && s[j]
        != '\'' && s[j] != '"' by {
        assert(s[j] == a[j]);
    }
    lemma_lex_word_text(s, 0, na, Seq::empty(), Seq::empty());
    assert(Seq::<char>::empty() + s.subrange(0, na) =~= a);
    assert(s[na] == '\\' && s[na + 1] == x);
    assert(lex(s, (na, false, false, a, Seq::empty())) == lex(
        s,
        (na + 2, false, false, a.push(x), Seq::empty()),
    ));
    assert forall|j: int| na + 2 <= j < n implies !is_blank(#[trigger] s[j]) && s[j] != '\\'
        && s[j] != '\'' && s[j] != '"' by {
        assert(s[j] == b[j - na - 2]);
    }
    lemma_lex_word_text(s, na + 2, n, a.push(x), Seq::empty());
    assert(a.push(x) + s.subrange(na + 2, n) =~= a.push(x) + b);
    assert(seq![a.push(x) + b] =~= Seq::<Seq<char>>::empty().push(a.push(x) + b));
}

/// A backslash that ends the line outside quotes is dropped; one that ends
/// the line inside unclosed double quotes is kept.
pub proof fn law_backslash_at_end(a: Seq<char>)
    requires
        is_word_text(a),
        a.len() > 0,
    ensures
        parse_spec(a + seq!['\\']) == seq![a],
        parse_spec(seq!['"'] + a + seq!['\\']) == seq![a.push('\\')],
{
    let s = a + seq!['\\'];
    let n = s.len() as int;
    assert forall|j: int| 0 <= j < n - 1 implies !is_blank(#[trigger] s[j]) && s[j] != '\\' && s[j]
        != '\'' && s[j] != '"' by {
        assert(s[j] == a[j]);
    }
    lemma_lex_word_text(s, 0, n - 1, Seq::empty(), Seq::empty());
    assert(Seq::<char>::empty() + s.subrange(0, n - 1) =~= a);
    assert(s[n - 1] == '\\');
    assert(lex(s, (n - 1, false, false, a, Seq::empty())) == lex(
        s,
        (n, false, false, a, Seq::empty()),
    ));
    assert(seq![a] =~= Seq::<Seq<char>>::empty().push(a));
    let t = seq!['"'] + a + seq!['\\'];
    let m = t.len() as int;
    assert(t[0] == '"');
    assert(lex(t, (0, false, false, Seq::empty(), Seq::empty())) == lex(
        t,
        (1, false, true, Seq::empty(), Seq::empty()),
    ));
    assert forall|j: int| 1 <= j < m - 1 implies t[j] != '"' && t[j] != '\\' by {
        assert(t[j] == a[j - 1]);
    }
    lemma_lex_inside_double_quotes(t, 1, m - 1, Seq::empty(), Seq::empty());
    assert(Seq::<char>::empty() + t.subrange(1, m - 1) =~= a);
    assert(t[m - 1] == '\\');
    assert(lex(t, (m - 1, false, true, a, Seq::empty())) == lex(
        t,
        (m, false, true, a.push('\\'), Seq::empty()),
    ));
    assert(seq![a.push('\\')] =~= Seq::<Seq<char>>::empty().push(a.push('\\')));
}

/// Inside double quotes a backslash before `"`, `\`, `$` or `` ` `` is
/// dropped and keeps that character; before any other character it stays.
pub proof fn law_backslash_in_double_quotes(a: Seq<char>, x: char, b: Seq<char>)
    requires
        forall|j: int| 0 <= j < a.len() ==> a[j] != '"' && a[j] != '\\',
        forall|j: int| 0 <= j < b.len() ==> b[j] != '"' && b[j] != '\\',
    ensures
        escapable_in_double_quotes(x) ==> parse_spec(seq!['"'] + a + seq!['\\', x] + b + seq!['"'])
            == seq![a.push(x) + b],
        !escapable_in_double_quotes(x) ==> parse_spec(
            seq!['"'] + a + seq!['\\', x] + b + seq!['"'],
        ) == seq![a + seq!['\\', x] + b],
{
    let s = seq!['"'] + a + seq!['\\', x] + b + seq!['"'];
    let na = a.len() as int;
    let n = s.len() as int;
    assert(s[0] == '"');
    assert(lex(s, (0, false, false, Seq::empty(), Seq::empty())) == lex(
        s,
        (1, false, true, Seq::empty(), Seq::empty()),
    ));
    assert forall|j: int| 1 <= j < na + 1 implies s[j] != '"' && s[j] != '\\' by {
        assert(s[j] == a[j - 1]);
    }
    lemma_lex_inside_double_quotes(s, 1, na + 1, Seq::empty(), Seq::empty());
    assert(Seq::<char>::empty() + s.subrange(1, na + 1) =~= a);
    assert(s[na + 1] == '\\' && s[na + 2] == x);
    assert forall|j: int| na + 3 <= j < n - 1 implies s[j] != '"' && s[j] != '\\' by {
        assert(s[j] == b[j - na - 3]);
    }
    assert(s[n - 1] == '"');
    if escapable_in_double_quotes(x) {
        let w = a.push(x);
        assert(lex(s, (na + 1, false, true, a, Seq::empty())) == lex(
            s,
            (na + 3, false, true, w, Seq::empty()),
        ));
        lemma_lex_inside_double_quotes(s, na + 3, n - 1, w, Seq::empty());
        assert(w + s.subrange(na + 3, n - 1) =~= w + b);
        assert(lex(s, (n - 1, false, true, w + b, Seq::empty())) == lex(
            s,
            (n, false, false, w + b, Seq::empty()),
        ));
        assert(seq![w + b] =~= Seq::<Seq<char>>::empty().push(w + b));
    } else {
        let w = a.push('\\');
        assert(lex(s, (na + 1, false, true, a, Seq::empty())) == lex(
            s,
            (na + 2, false, true, w, Seq::empty()),
        ));
        lemma_lex_inside_double_quotes(s, na + 2, n - 1, w, Seq::empty());
        assert(w + s.subrange(na + 2, n - 1) =~= a + seq!['\\', x] + b);
        assert(lex(s, (n - 1, false, true, a + seq!['\\', x] + b, Seq::empty())) == lex(
            s,
            (n, false, false, a + seq!['\\', x] + b, Seq::empty()),
        ));
        assert(seq![a + seq!['\\', x] + b] =~= Seq::<Seq<char>>::empty().push(
            a + seq!['\\', x] + b,
        ));
    }
}

/// Blanks separate words: two word texts with blanks between them are two
/// words.
pub proof fn law_blank_separates_words(a: Seq<char>, blanks: Seq<char>, b: Seq<char>)
    requires
        is_word_text(a),
        is_word_text(b),
        a.len() > 0,
        b.len() > 0,
        blanks.len() > 0,
        forall|j: int| 0 <= j < blanks.len() ==> is_blank(#[trigger] blanks[j]),
    ensures
        parse_spec(a + blanks + b) == seq![a, b],
{
    let s = a + blanks + b;
    let na = a.len() as int;
    let nb = blanks.len() as int;
    let n = s.len() as int;
    assert forall|j: int| 0 <= j < na implies !is_blank(#[trigger] s[j]) && s[j] != '\\' && s[j]
        != '\'' && s[j] != '"' by {
        assert(s[j] == a[j]);
    }
    lemma_lex_word_text(s, 0, na, Seq::empty(), Seq::empty());
    assert(Seq::<char>::empty() + s.subrange(0, na) =~= a);
    assert(is_blank(s[na]));
    assert(lex(s, (na, false, false, a, Seq::empty())) == lex(
        s,
        (na + 1, false, false, Seq::empty(), seq![a]),
    ));
    lemma_lex_blanks(s, na + 1, na + nb, seq![a]);
    assert forall|j: int| na + nb <= j < n implies !is_blank(#[trigger] s[j]) && s[j] != '\\'
        && s[j] != '\'' && s[j] != '"' by {
        assert(s[j] == b[j - na - nb]);
    }
    lemma_lex_word_text(s, na + nb, n, Seq::empty(), seq![a]);
    assert(Seq::<char>::empty() + s.subrange(na + nb, n) =~= b);
    assert(seq![a].push(b) =~= seq![a, b]);
}

proof fn lemma_lex_blanks(s: Seq<char>, i: int, k: int, args: Seq<Seq<char>>)
    requires
        0 <= i <= k <= s.len(),
        forall|j: int| i <= j < k ==> is_blank(#[trigger] s[j]),
    ensures
        lex(s, (i, false, false, Seq::empty(), args)) == lex(
            s,
            (k, false, false, Seq::empty(), args),
        ),
    decreases k - i,
{
    if i < k {
        lemma_lex_blanks(s, i + 1, k, args);
    }
}

/// The commands of a pipeline: the line split at every `|`, each part
/// parsed into words.
pub open spec fn pipeline_spec(s: Seq<char>) -> Seq<Seq<Seq<char>>> {
    split_on(s, '|').map_values(|part: Seq<char>| parse_spec(part))
}

/// The words of each command of a pipeline, in order.
pub open spec fn commands_view(v: Seq<Vec<String>>) -> Seq<Seq<Seq<char>>> {
    v.map_values(|c: Vec<String>| strings_view(c@))
}

/// Splits a pipeline line at each `|` and parses every command of it.
pub fn parse_pipeline(line: &str) -> (commands: Vec<Vec<String>>)
    ensures
        commands_view(commands@) == pipeline_spec(line@),
{
    let parts = split_on_char(line, '|');
    let ghost pieces = split_on(line@, '|');
    let mut commands: Vec<Vec<String>> = Vec::new();
    let mut k: usize = 0;
    while k < parts.len()
        invariant
            k <= parts@.len(),
            strings_view(parts@) == pieces,
            pieces == split_on(line@, '|'),
            commands@.len() == k,
            forall|j: int| 0 <= j < k ==> strings_view(#[trigger] commands@[j]@) == parse_spec(
                pieces[j],
            ),
        decreases parts@.len() - k,
    {
        let words = parse_input(parts[k].as_str());
        assert(parts@[k as int]@ == pieces[k as int]);
        commands.push(words);
        k = k + 1;
    }
    assert(commands_view(commands@) =~= pipeline_spec(line@));
    commands
}

/// A line without `|` is a pipeline of one command: the line's words.
pub proof fn law_line_without_bar_is_one_command(s: Seq<char>)
    requires
        forall|j: int| 0 <= j < s.len() ==> s[j] != '|',
    ensures
        pipeline_spec(s) == seq![parse_spec(s)],
{
    lemma_split_from_no_separator(s, '|', 0, Seq::empty(), Seq::empty());
    assert(Seq::<char>::empty() + s.subrange(0, s.len() as int) =~= s);
    assert(split_on(s, '|') =~= seq![s]);
    assert(pipeline_spec(s) =~= seq![parse_spec(s)]);
}

/// A line with one `|` between two parts without `|` is a pipeline of
/// two commands: the words of each part.
pub proof fn law_bar_separates_two_commands(a: Seq<char>, b: Seq<char>)
    requires
        forall|j: int| 0 <= j < a.len() ==> a[j] != '|',
        forall|j: int| 0 <= j < b.len() ==> b[j] != '|',
    ensures
        pipeline_spec(a + seq!['|'] + b) == seq![parse_spec(a), parse_spec(b)],
{
    law_split_pieces(a, b, '|');
    assert(pipeline_spec(a + seq!['|'] + b) =~= seq![parse_spec(a), parse_spec(b)]);
}

} // verus!
