use vstd::prelude::*;
use vstd::string::StringSliceAdditionalSpecFns;
use vstd::utf8::{decode_utf8, encode_utf8, encode_utf8_decode_utf8, is_char_boundary};

use crate::order::{
    bytes_less,
    lemma_bytes_lt_total,
    lemma_bytes_lt_transitive,
    lemma_same_bytes_same_text,
    strictly_ascending,
    text_lt,
};
use crate::text::{str_contains_char, str_starts_with, strings_view, str_eq};

verus! {

/// Tab completion of command names: the builtins and the executables found
/// in the directories of `PATH`.
pub struct ShellCompleter;

/// One completion offered for the word under the cursor.
pub struct Completion {
    /// What the list of completions shows.
    pub display: String,
    /// What replaces the word when this completion is taken.
    pub replacement: String,
}

/// The builtins that completion offers.
pub open spec fn completable_builtins() -> Seq<Seq<char>> {
    seq!["echo"@, "exit"@]
}

/// `name` completes `word`: it begins with `word` and is longer.
pub open spec fn completes(word: Seq<char>, name: Seq<char>) -> bool {
    word.is_prefix_of(name) && name != word
}

/// `name` is offered as a completion of `word`, given the names of the
/// executables found in `PATH`.
pub open spec fn is_candidate(word: Seq<char>, path_names: Seq<Seq<char>>, name: Seq<char>) -> bool {
    completes(word, name) && (completable_builtins().contains(name) || path_names.contains(name))
}

/// The word that completion works on: the part of `line` before the byte
/// position `pos`.
pub open spec fn word_before(line: Seq<char>, pos: int) -> Seq<char> {
    decode_utf8(encode_utf8(line).subrange(0, pos))
}

/// A name completes a word when it is longer and starts with it; the
/// builtins offered are `echo` and `exit` only.
pub proof fn law_what_completes(word: Seq<char>, names: Seq<Seq<char>>, name: Seq<char>)
    ensures
        completes(word, name) <==> name.len() > word.len() && name.take(word.len() as int)
            == word,
        is_candidate(word, names, name) <==> completes(word, name) && (name == "echo"@ || name
            == "exit"@ || names.contains(name)),
{
    if name.len() > word.len() && name.take(word.len() as int) == word {
        assert(word =~= name.subrange(0, word.len() as int));
    }
    if completes(word, name) {
        assert(name.take(word.len() as int) =~= word);
        if name.len() == word.len() {
            assert(name =~= word);
        }
    }
    if name == "echo"@ {
        assert(completable_builtins()[0] == name);
    }
    if name == "exit"@ {
        assert(completable_builtins()[1] == name);
    }
    if completable_builtins().contains(name) {
        let k = choose|k: int| 0 <= k < 2 && completable_builtins()[k] == name;
        assert(k == 0 || k == 1);
    }
}

/// Whether `name` completes `word`.
pub fn completes_word(word: &str, name: &str) -> (res: bool)
    ensures
        res == completes(word@, name@),
{
    str_starts_with(name, word) && !str_eq(name, word)
}

/// Puts `x` into the ascending list `out`, unless a string with the same
/// text is there already.
fn insert_ascending(out: &mut Vec<String>, x: String)
    requires
        strictly_ascending(strings_view(old(out)@)),
    ensures
        strictly_ascending(strings_view(final(out)@)),
        forall|y: Seq<char>|
            strings_view(final(out)@).contains(y) <==> (strings_view(old(out)@).contains(y) || y
                == x@),
{
    let ghost v = strings_view(out@);
    let mut p: usize = 0;
    while p < out.len() && bytes_less(out[p].as_str().as_bytes(), x.as_str().as_bytes())
        invariant
            v == strings_view(out@),
            strictly_ascending(v),
            p <= out@.len(),
            forall|j: int| 0 <= j < p ==> text_lt(#[trigger] v[j], x@),
        decreases out@.len() - p,
    {
        assert(v[p as int] == out@[p as int]@);
        p = p + 1;
    }
    if p < out.len() && !bytes_less(x.as_str().as_bytes(), out[p].as_str().as_bytes()) {
        // neither comes before the other: the same bytes, so the same text
        proof {
            assert(v[p as int] == out@[p as int]@);
            let a = encode_utf8(x@);
            let b = encode_utf8(v[p as int]);
            if a != b {
                lemma_bytes_lt_total(a, b);
            }
            lemma_same_bytes_same_text(x@, v[p as int]);
            assert(v.contains(x@));
        }
        return ;
    }
    proof {
        if p < out.len() {
            assert(v[p as int] == out@[p as int]@);
        }
    }
    out.insert(p, x);
    let ghost w = strings_view(out@);
    assert(w =~= v.insert(p as int, x@));
    assert forall|i: int, j: int| 0 <= i < j < w.len() implies text_lt(#[trigger] w[i], #[trigger] w[j]) by {
        if j < p {
            assert(w[i] == v[i] && w[j] == v[j]);
        } else if j == p {
            assert(w[i] == v[i]);
        } else if i < p {
            assert(w[i] == v[i] && w[j] == v[j - 1]);
            assert(text_lt(v[p as int], v[j - 1]) || p == j - 1);
            if p < j - 1 {
                lemma_bytes_lt_transitive(encode_utf8(v[i]), encode_utf8(x@), encode_utf8(v[p as int]));
                lemma_bytes_lt_transitive(encode_utf8(v[i]), encode_utf8(v[p as int]), encode_utf8(v[j - 1]));
            } else {
                lemma_bytes_lt_transitive(encode_utf8(v[i]), encode_utf8(x@), encode_utf8(v[j - 1]));
            }
        } else if i == p {
            assert(w[j] == v[j - 1]);
            if p < j - 1 {
                lemma_bytes_lt_transitive(encode_utf8(x@), encode_utf8(v[p as int]), encode_utf8(v[j - 1]));
            }
        } else {
            assert(w[i] == v[i - 1] && w[j] == v[j - 1]);
        }
    }
    assert forall|y: Seq<char>| w.contains(y) <==> (v.contains(y) || y == x@) by {
        if w.contains(y) {
            let k = choose|k: int| 0 <= k < w.len() && w[k] == y;
            if k < p {
                assert(v[k] == y);
            } else if k > p {
                assert(v[k - 1] == y);
            }
        }
        if v.contains(y) {
            let k = choose|k: int| 0 <= k < v.len() && v[k] == y;
            if k < p {
                assert(w[k] == y);
            } else {
                assert(w[k + 1] == y);
            }
        }
        if y == x@ {
            assert(w[p as int] == y);
        }
    }
}

impl ShellCompleter {
    /// The names that complete `word`, in ascending order and without
    /// repeats: the builtins `echo` and `exit`, and the names of the
    /// executables in `PATH` (`path_names`), that begin with `word` and are
    /// longer than it.
    pub fn get_candidates(&self, word: &str, path_names: &Vec<String>) -> (res: Vec<String>)
        ensures
            strictly_ascending(strings_view(res@)),
            forall|name: Seq<char>|
                strings_view(res@).contains(name) <==> is_candidate(
                    word@,
                    strings_view(path_names@),
                    name,
                ),
    {
        let ghost names = strings_view(path_names@);
        let mut out: Vec<String> = Vec::new();
        assert(strings_view(out@) =~= Seq::empty());
        if completes_word(word, "echo") {
            insert_ascending(&mut out, String::from_str("echo"));
        }
        if completes_word(word, "exit") {
            insert_ascending(&mut out, String::from_str("exit"));
        }
        assert forall|name: Seq<char>|
            strings_view(out@).contains(name) <==> (completes(word@, name)
                && completable_builtins().contains(name)) by {
            let bs = completable_builtins();
            assert(bs[0] == "echo"@ && bs[1] == "exit"@);
            if bs.contains(name) {
                let j = choose|j: int| 0 <= j < bs.len() && #[trigger] bs[j] == name;
                assert(j == 0 || j == 1);
            }
        }
        assert(names.take(0) =~= Seq::<Seq<char>>::empty());
        let mut k: usize = 0;
        while k < path_names.len()
            invariant
                names == strings_view(path_names@),
                k <= path_names@.len(),
                strictly_ascending(strings_view(out@)),
                forall|name: Seq<char>|
                    strings_view(out@).contains(name) <==> (completes(word@, name) && (
                    completable_builtins().contains(name) || names.take(k as int).contains(
                        name,
                    ))),
            decreases path_names@.len() - k,
        {
            let name = &path_names[k];
            assert(names[k as int] == name@);
            if completes_word(word, name.as_str()) {
                insert_ascending(&mut out, name.clone());
            }
            assert forall|y: Seq<char>|
                strings_view(out@).contains(y) <==> (completes(word@, y) && (
                completable_builtins().contains(y) || names.take(k + 1).contains(y))) by {
                let longer = names.take(k + 1);
                let shorter = names.take(k as int);
                assert(longer =~= shorter.push(name@));
                assert(longer[k as int] == name@);
                if longer.contains(y) && y != name@ {
                    let j = choose|j: int| 0 <= j < longer.len() && #[trigger] longer[j] == y;
                    assert(shorter[j] == y);
                }
            }
            k = k + 1;
        }
        assert(names.take(path_names@.len() as int) =~= names);
        out
    }

    /// Completes the command name before the cursor at byte position `pos`
    /// of `line`.
    ///
    /// Only the first word is completed: when the text before the cursor
    /// holds a space, nothing is offered and the replacement starts at
    /// `pos`. Otherwise the replacement starts at 0 and each candidate of
    /// `get_candidates`, in the same order, is offered with a space after
    /// it.
    pub fn complete(&self, line: &str, pos: usize, path_names: &Vec<String>) -> (res: (
        usize,
        Vec<Completion>,
    ))
        requires
            is_char_boundary(encode_utf8(line@), pos as int),
        ensures
            word_before(line@, pos as int).contains(' ') ==> res.0 == pos && res.1@.len() == 0,
            !word_before(line@, pos as int).contains(' ') ==> {
                let shown = res.1@.map_values(|c: Completion| c.display@);
                &&& res.0 == 0
                &&& strictly_ascending(shown)
                &&& forall|name: Seq<char>|
                    shown.contains(name) <==> is_candidate(
                        word_before(line@, pos as int),
                        strings_view(path_names@),
                        name,
                    )
                &&& forall|i: int|
                    0 <= i < res.1@.len() ==> (#[trigger] res.1@[i]).replacement@
                        == res.1@[i].display@.push(' ')
            },
    {
        let (word, _rest) = line.split_at(pos);
        proof {
            encode_utf8_decode_utf8(word@);
            assert(word.spec_bytes() == encode_utf8(word@));
        }
        assert(word@ == word_before(line@, pos as int));
        if str_contains_char(word, ' ') {
            return (pos, Vec::new());
        }
        let candidates = self.get_candidates(word, path_names);
        let ghost cands = strings_view(candidates@);
        let mut pairs: Vec<Completion> = Vec::new();
        let mut k: usize = 0;
        while k < candidates.len()
            invariant
                k <= candidates@.len(),
                cands == strings_view(candidates@),
                pairs@.len() == k,
                forall|i: int|
                    0 <= i < k ==> (#[trigger] pairs@[i]).display@ == cands[i]
                        && pairs@[i].replacement@ == cands[i].push(' '),
            decreases candidates@.len() - k,
        {
            let c = &candidates[k];
            let mut replacement = c.clone();
            replacement.push(' ');
            pairs.push(Completion { display: c.clone(), replacement });
            k = k + 1;
        }
        assert(pairs@.map_values(|c: Completion| c.display@) =~= cands);
        (0, pairs)
    }

    /// The word before the cursor at byte position `pos` of `line`, when
    /// it is one that completion works on (it holds no space).
    pub fn completion_word(line: &str, pos: usize) -> (res: Option<String>)
        requires
            is_char_boundary(encode_utf8(line@), pos as int),
        ensures
            word_before(line@, pos as int).contains(' ') ==> res is None,
            !word_before(line@, pos as int).contains(' ') ==> (res matches Some(w) && w@
                == word_before(line@, pos as int)),
    {
        let (word, _rest) = line.split_at(pos);
        proof {
            encode_utf8_decode_utf8(word@);
        }
        if str_contains_char(word, ' ') {
            None
        } else {
            Some(String::from_str(word))
        }
    }
}

} // verus!
