use vstd::prelude::*;
use vstd::std_specs::iter::IteratorSpec;

verus! {

/// Appends one character to a `String`.
///
/// `String::push` is documented to append the given `char` to the end of
/// the string; this is all that is claimed of it.
pub assume_specification[ String::push ](s: &mut String, ch: char)
    ensures
        final(s)@ == old(s)@.push(ch),
;

/// The contents of each string of `v`, in order.
pub open spec fn strings_view(v: Seq<String>) -> Seq<Seq<char>> {
    v.map_values(|x: String| x@)
}

/// The names of the shell's builtins are different words.
pub proof fn lemma_builtin_names_differ()
    ensures
        "echo"@ != "exit"@,
        "echo"@ != "type"@,
        "echo"@ != "pwd"@,
        "echo"@ != "cd"@,
        "echo"@ != "history"@,
        "exit"@ != "type"@,
        "exit"@ != "pwd"@,
        "exit"@ != "cd"@,
        "exit"@ != "history"@,
        "type"@ != "pwd"@,
        "type"@ != "cd"@,
        "type"@ != "history"@,
        "pwd"@ != "cd"@,
        "pwd"@ != "history"@,
        "cd"@ != "history"@,
{
    reveal_strlit("echo");
    reveal_strlit("exit");
    reveal_strlit("type");
    reveal_strlit("pwd");
    reveal_strlit("cd");
    reveal_strlit("history");
    assert("echo"@.len() == 4 && "exit"@.len() == 4 && "type"@.len() == 4);
    assert("pwd"@.len() == 3 && "cd"@.len() == 2 && "history"@.len() == 7);
    assert("echo"@[1] == 'c' && "exit"@[1] == 'x' && "type"@[1] == 'y');
}

/// The characters of `s`, in order.
pub fn chars_of(s: &str) -> (res: Vec<char>)
    ensures
        res@ == s@,
{
    broadcast use vstd::string::group_string_axioms;
    let mut it = s.chars();
    let mut out: Vec<char> = Vec::new();
    loop
        invariant
            it.remaining() == s@.skip(out.len() as int),
            out@ == s@.take(out.len() as int),
            out.len() <= s@.len(),
        ensures
            out@ == s@,
        decreases s@.len() - out.len(),
    {
        match it.next() {
            Some(c) => {
                out.push(c);
            },
            None => {
                assert(out@ =~= s@);
                break;
            },
        }
    }
    out
}

/// The pieces of `s` between the separators `sep` from position `i` on,
/// where `cur` is the piece begun before `i` and `acc` the pieces already
/// closed.
pub open spec fn split_from(
    s: Seq<char>,
    sep: char,
    i: int,
    cur: Seq<char>,
    acc: Seq<Seq<char>>,
) -> Seq<Seq<char>>
    decreases s.len() - i,
{
    if i < 0 || i >= s.len() {
        acc.push(cur)
    } else if s[i] == sep {
        split_from(s, sep, i + 1, Seq::empty(), acc.push(cur))
    } else {
        split_from(s, sep, i + 1, cur.push(s[i]), acc)
    }
}

/// The pieces of `s` between occurrences of `sep`: one more piece than
/// there are separators, empty pieces included (as `str::split` gives).
pub open spec fn split_on(s: Seq<char>, sep: char) -> Seq<Seq<char>> {
    split_from(s, sep, 0, Seq::empty(), Seq::empty())
}

proof fn lemma_split_from_len(
    s: Seq<char>,
    sep: char,
    i: int,
    cur: Seq<char>,
    acc: Seq<Seq<char>>,
)
    ensures
        split_from(s, sep, i, cur, acc).len() > acc.len(),
    decreases s.len() - i,
{
    if 0 <= i < s.len() {
        if s[i] == sep {
            lemma_split_from_len(s, sep, i + 1, Seq::empty(), acc.push(cur));
        } else {
            lemma_split_from_len(s, sep, i + 1, cur.push(s[i]), acc);
        }
    }
}

/// Splitting gives at least one piece.
pub proof fn lemma_split_nonempty(s: Seq<char>, sep: char)
    ensures
        split_on(s, sep).len() >= 1,
{
    lemma_split_from_len(s, sep, 0, Seq::empty(), Seq::empty());
}

/// Where `s` holds no `sep` between `i` and `k`, the characters there go
/// into the current piece.
pub proof fn lemma_split_prefix_no_separator(
    s: Seq<char>,
    sep: char,
    i: int,
    k: int,
    cur: Seq<char>,
    acc: Seq<Seq<char>>,
)
    requires
        0 <= i <= k <= s.len(),
        forall|j: int| i <= j < k ==> s[j] != sep,
    ensures
        split_from(s, sep, i, cur, acc) == split_from(s, sep, k, cur + s.subrange(i, k), acc),
    decreases k - i,
{
    if i < k {
        lemma_split_prefix_no_separator(s, sep, i + 1, k, cur.push(s[i]), acc);
        assert(cur.push(s[i]) + s.subrange(i + 1, k) =~= cur + s.subrange(i, k));
    } else {
        assert(cur + s.subrange(i, k) =~= cur);
    }
}

/// Where `s` holds no `sep` from `i` on, the rest of it closes the current
/// piece.
pub proof fn lemma_split_from_no_separator(
    s: Seq<char>,
    sep: char,
    i: int,
    cur: Seq<char>,
    acc: Seq<Seq<char>>,
)
    requires
        0 <= i <= s.len(),
        forall|j: int| i <= j < s.len() ==> s[j] != sep,
    ensures
        split_from(s, sep, i, cur, acc) == acc.push(cur + s.subrange(i, s.len() as int)),
    decreases s.len() - i,
{
    if i < s.len() {
        lemma_split_from_no_separator(s, sep, i + 1, cur.push(s[i]), acc);
        assert(cur.push(s[i]) + s.subrange(i + 1, s.len() as int) =~= cur + s.subrange(
            i,
            s.len() as int,
        ));
    } else {
        assert(cur + s.subrange(i, s.len() as int) =~= cur);
    }
}

/// A text without `sep` is one piece; two such texts with one `sep`
/// between them are two pieces.
pub proof fn law_split_pieces(a: Seq<char>, b: Seq<char>, sep: char)
    requires
        forall|j: int| 0 <= j < a.len() ==> a[j] != sep,
        forall|j: int| 0 <= j < b.len() ==> b[j] != sep,
    ensures
        split_on(a, sep) == seq![a],
        split_on(a + seq![sep] + b, sep) == seq![a, b],
{
    lemma_split_from_no_separator(a, sep, 0, Seq::empty(), Seq::empty());
    assert(Seq::<char>::empty() + a.subrange(0, a.len() as int) =~= a);
    assert(Seq::<Seq<char>>::empty().push(a) =~= seq![a]);
    let s = a + seq![sep] + b;
    let n1 = a.len() as int;
    lemma_split_prefix_no_separator(s, sep, 0, n1, Seq::empty(), Seq::empty());
    assert(Seq::<char>::empty() + s.subrange(0, n1) =~= a);
    assert(s[n1] == sep);
    assert forall|j: int| n1 + 1 <= j < s.len() implies s[j] != sep by {
        assert(s[j] == b[j - n1 - 1]);
    }
    lemma_split_from_no_separator(s, sep, n1 + 1, Seq::empty(), seq![a]);
    assert(Seq::<char>::empty() + s.subrange(n1 + 1, s.len() as int) =~= b);
    assert(seq![a].push(b) =~= seq![a, b]);
}

/// Splits `s` at every occurrence of `sep`.
pub fn split_on_char(s: &str, sep: char) -> (res: Vec<String>)
    ensures
        strings_view(res@) == split_on(s@, sep),
{
    let cs = chars_of(s);
    let mut res: Vec<String> = Vec::new();
    let mut cur = String::new();
    let mut i: usize = 0;
    assert(strings_view(res@) =~= Seq::empty());
    while i < cs.len()
        invariant
            cs@ == s@,
            i <= cs@.len(),
            split_from(s@, sep, i as int, cur@, strings_view(res@)) == split_on(s@, sep),
        decreases cs@.len() - i,
    {
        let c = cs[i];
        if c == sep {
            let ghost before = strings_view(res@);
            res.push(cur);
            cur = String::new();
            assert(strings_view(res@) =~= before.push(res@.last()@));
        } else {
            cur.push(c);
        }
        i = i + 1;
    }
    let ghost before = strings_view(res@);
    res.push(cur);
    assert(strings_view(res@) =~= before.push(res@.last()@));
    res
}

/// Whether `a` and `b` hold the same characters.
pub fn str_eq(a: &str, b: &str) -> (res: bool)
    ensures
        res == (a@ == b@),
{
    let x = chars_of(a);
    let y = chars_of(b);
    if x.len() != y.len() {
        return false;
    }
    let mut i: usize = 0;
    while i < x.len()
        invariant
            x@ == a@,
            y@ == b@,
            x@.len() == y@.len(),
            i <= x@.len(),
            forall|j: int| 0 <= j < i ==> x@[j] == y@[j],
        decreases x@.len() - i,
    {
        if x[i] != y[i] {
            return false;
        }
        i = i + 1;
    }
    assert(a@ =~= b@);
    true
}

/// Whether `a` is the beginning of `b`.
pub fn str_starts_with(b: &str, a: &str) -> (res: bool)
    ensures
        res == a@.is_prefix_of(b@),
{
    let x = chars_of(a);
    let y = chars_of(b);
    if x.len() > y.len() {
        return false;
    }
    let mut i: usize = 0;
    while i < x.len()
        invariant
            x@ == a@,
            y@ == b@,
            x@.len() <= y@.len(),
            i <= x@.len(),
            forall|j: int| 0 <= j < i ==> x@[j] == y@[j],
        decreases x@.len() - i,
    {
        if x[i] != y[i] {
            assert(a@ != b@.subrange(0, a@.len() as int));
            return false;
        }
        i = i + 1;
    }
    assert(a@ =~= b@.subrange(0, a@.len() as int));
    true
}

/// Whether `c` occurs in `s`.
pub fn str_contains_char(s: &str, c: char) -> (res: bool)
    ensures
        res == s@.contains(c),
{
    let x = chars_of(s);
    let mut i: usize = 0;
    while i < x.len()
        invariant
            x@ == s@,
            i <= x@.len(),
            forall|j: int| 0 <= j < i ==> x@[j] != c,
        decreases x@.len() - i,
    {
        if x[i] == c {
            assert(s@[i as int] == c);
            return true;
        }
        i = i + 1;
    }
    false
}

/// The words of `ws` with one space between each two.
pub open spec fn join_spaced(ws: Seq<Seq<char>>) -> Seq<char>
    decreases ws.len(),
{
    if ws.len() == 0 {
        Seq::empty()
    } else if ws.len() == 1 {
        ws[0]
    } else {
        join_spaced(ws.drop_last()) + seq![' '] + ws.last()
    }
}

/// The strings of `v` from position `from` on, joined with single spaces.
pub fn join_spaced_from(v: &Vec<String>, from: usize) -> (res: String)
    requires
        from <= v@.len(),
    ensures
        res@ == join_spaced(strings_view(v@).skip(from as int)),
{
    let ghost ws = strings_view(v@);
    let mut res = String::new();
    let mut k: usize = from;
    assert(ws.subrange(from as int, from as int) =~= Seq::empty());
    while k < v.len()
        invariant
            ws == strings_view(v@),
            from <= k <= v@.len(),
            res@ == join_spaced(ws.subrange(from as int, k as int)),
        decreases v@.len() - k,
    {
        let ghost prev = ws.subrange(from as int, k as int);
        let ghost next = ws.subrange(from as int, k + 1);
        assert(next.drop_last() =~= prev);
        assert(next.last() == v@[k as int]@);
        if k > from {
            res.push(' ');
        } else {
            assert(next =~= seq![v@[k as int]@]);
        }
        res.append(v[k].as_str());
        k = k + 1;
    }
    assert(ws.subrange(from as int, v@.len() as int) =~= ws.skip(from as int));
    res
}

/// A copy of the strings of `v` from position `from` on.
pub fn strings_from(v: &Vec<String>, from: usize) -> (res: Vec<String>)
    requires
        from <= v@.len(),
    ensures
        strings_view(res@) == strings_view(v@).skip(from as int),
{
    let ghost ws = strings_view(v@);
    let mut res: Vec<String> = Vec::new();
    let mut k: usize = from;
    assert(strings_view(res@) =~= ws.subrange(from as int, from as int));
    while k < v.len()
        invariant
            ws == strings_view(v@),
            from <= k <= v@.len(),
            strings_view(res@) == ws.subrange(from as int, k as int),
        decreases v@.len() - k,
    {
        let ghost before = strings_view(res@);
        let item = v[k].clone();
        assert(item@ == ws[k as int]);
        res.push(item);
        assert(strings_view(res@) =~= before.push(ws[k as int]));
        assert(strings_view(res@) =~= ws.subrange(from as int, k + 1));
        k = k + 1;
    }
    assert(ws.subrange(from as int, v@.len() as int) =~= ws.skip(from as int));
    res
}

} // verus!
