use vstd::prelude::*;

use crate::text::chars_of;

verus! {

/// A decimal digit, `0` to `9`.
pub open spec fn is_digit(c: char) -> bool {
    '0' <= c && c <= '9'
}

/// The value of the decimal digit `c`.
pub open spec fn digit_value(c: char) -> int {
    (c as int) - ('0' as int)
}

/// The value of the decimal numeral `s`.
pub open spec fn decimal_value(s: Seq<char>) -> int
    decreases s.len(),
{
    if s.len() == 0 {
        0
    } else {
        decimal_value(s.drop_last()) * 10 + digit_value(s.last())
    }
}

/// The digits of a numeral: `s` without one leading `+`.
pub open spec fn unsigned_digits(s: Seq<char>) -> Seq<char> {
    if s.len() > 0 && s[0] == '+' {
        s.drop_first()
    } else {
        s
    }
}

/// What `str::parse::<usize>` gives: the value of the decimal numeral
/// `s`, which may start with one `+`, when it has at least one digit, only
/// digits, and a value that fits in a `usize`.
pub open spec fn parse_usize_spec(s: Seq<char>) -> Option<usize> {
    let digits = unsigned_digits(s);
    if digits.len() == 0 || exists|i: int| 0 <= i < digits.len() && !is_digit(#[trigger] digits[i])
        || decimal_value(digits) > usize::MAX {
        None
    } else {
        Some(decimal_value(digits) as usize)
    }
}

proof fn lemma_decimal_value_nonneg(s: Seq<char>)
    requires
        forall|i: int| 0 <= i < s.len() ==> is_digit(#[trigger] s[i]),
    ensures
        decimal_value(s) >= 0,
    decreases s.len(),
{
    if s.len() > 0 {
        lemma_decimal_value_nonneg(s.drop_last());
        assert(is_digit(s[s.len() - 1]));
    }
}

/// A numeral is worth at least as much as any beginning of it.
proof fn lemma_decimal_value_prefix(s: Seq<char>, k: int)
    requires
        0 <= k <= s.len(),
        forall|i: int| 0 <= i < s.len() ==> is_digit(#[trigger] s[i]),
    ensures
        decimal_value(s.take(k)) <= decimal_value(s),
    decreases s.len(),
{
    if k < s.len() {
        lemma_decimal_value_prefix(s.drop_last(), k);
        assert(s.drop_last().take(k) =~= s.take(k));
        lemma_decimal_value_nonneg(s.drop_last());
        assert(is_digit(s[s.len() - 1]));
    } else {
        assert(s.take(k) =~= s);
    }
}

/// Reads a `usize` written in decimal, as `str::parse::<usize>` does.
pub fn parse_usize(s: &str) -> (res: Option<usize>)
    ensures
        res == parse_usize_spec(s@),
{
    let cs = chars_of(s);
    let ghost digits = unsigned_digits(s@);
    let start: usize = if cs.len() > 0 && cs[0] == '+' {
        1
    } else {
        0
    };
    assert(digits =~= s@.skip(start as int));
    if start >= cs.len() {
        return None;
    }
    let mut value: usize = 0;
    let mut k: usize = start;
    assert(digits.take(0) =~= Seq::<char>::empty());
    while k < cs.len()
        invariant
            cs@ == s@,
            digits == s@.skip(start as int),
            digits == unsigned_digits(s@),
            start <= k <= cs@.len(),
            forall|i: int| 0 <= i < k - start ==> is_digit(#[trigger] digits[i]),
            value as int == decimal_value(digits.take(k - start)),
        decreases cs@.len() - k,
    {
        let c = cs[k];
        assert(digits[k - start] == c);
        if !('0' <= c && c <= '9') {
            assert(!is_digit(digits[k - start]));
            return None;
        }
        let d = (c as u32 - '0' as u32) as usize;
        assert(d as int == digit_value(c));
        let ghost next = digits.take(k - start + 1);
        assert(next.drop_last() =~= digits.take(k - start));
        assert(next.last() == c);
        match value.checked_mul(10) {
            Some(tens) => {
                match tens.checked_add(d) {
                    Some(v) => {
                        value = v;
                    },
                    None => {
                        proof {
                            assert(decimal_value(next) == tens + d);
                            if forall|i: int|
                                0 <= i < digits.len() ==> is_digit(#[trigger] digits[i]) {
                                lemma_decimal_value_prefix(digits, k - start + 1);
                            }
                        }
                        return None;
                    },
                }
            },
            None => {
                proof {
                    if forall|i: int| 0 <= i < digits.len() ==> is_digit(#[trigger] digits[i]) {
                        lemma_decimal_value_prefix(digits, k - start + 1);
                        lemma_decimal_value_nonneg(digits.take(k - start));
                    }
                }
                return None;
            },
        }
        k = k + 1;
    }
    assert(digits.take(k - start) =~= digits);
    Some(value)
}

/// The character of the decimal digit `d` (which is below 10).
pub open spec fn digit_char(d: int) -> char {
    ((d + 48) as u8) as char
}

/// The decimal numeral of `n`, without leading zeros.
pub open spec fn decimal(n: nat) -> Seq<char>
    decreases n,
{
    if n < 10 {
        seq![digit_char(n as int)]
    } else {
        decimal(n / 10).push(digit_char((n % 10) as int))
    }
}

/// Appends the decimal numeral of `n` to `out`.
pub fn push_decimal(out: &mut String, n: usize)
    ensures
        final(out)@ == old(out)@ + decimal(n as nat),
    decreases n,
{
    if n >= 10 {
        push_decimal(out, n / 10);
    }
    let d: u8 = (n % 10) as u8;
    out.push((d + 48) as char);
    proof {
        if n >= 10 {
            assert(old(out)@ + decimal(n as nat) =~= old(out)@ + decimal((n / 10) as nat) + seq![
                digit_char((n % 10) as int),
            ]);
        }
    }
}

proof fn lemma_decimal_digits(n: nat)
    ensures
        decimal(n).len() > 0,
        decimal(n)[0] != '+',
        forall|i: int| 0 <= i < decimal(n).len() ==> is_digit(#[trigger] decimal(n)[i]),
        decimal_value(decimal(n)) == n,
    decreases n,
{
    if n < 10 {
        assert(decimal(n) =~= seq![digit_char(n as int)]);
        assert(decimal(n).drop_last() =~= Seq::<char>::empty());
        assert(digit_value(digit_char(n as int)) == n);
        assert(decimal_value(Seq::<char>::empty()) == 0);
        assert(decimal(n).last() == digit_char(n as int));
    } else {
        lemma_decimal_digits(n / 10);
        let d = decimal(n);
        assert(d.drop_last() =~= decimal(n / 10));
        assert(d[0] == decimal(n / 10)[0]);
        let r = (n % 10) as int;
        assert(0 <= r < 10);
        assert(digit_value(digit_char(r)) == r);
        assert(d.last() == digit_char(r));
        assert(decimal_value(d) == decimal_value(decimal(n / 10)) * 10 + r);
        assert((n / 10) * 10 + r == n);
        assert forall|i: int| 0 <= i < d.len() implies is_digit(#[trigger] d[i]) by {
            if i < d.len() - 1 {
                assert(d[i] == decimal(n / 10)[i]);
            }
        }
    }
}

/// The numeral of a number has no leading zero, but for zero itself,
/// which is `0`.
pub proof fn law_decimal_no_leading_zero(n: nat)
    ensures
        n == 0 ==> decimal(n) == seq!['0'],
        n > 0 ==> decimal(n)[0] != '0',
    decreases n,
{
    if n >= 10 {
        law_decimal_no_leading_zero(n / 10);
        assert(decimal(n)[0] == decimal(n / 10)[0]);
    } else if n > 0 {
        assert(digit_char(n as int) as int == n + 48);
    }
}

/// Reading back the decimal numeral of a `usize` gives the number.
pub proof fn law_decimal_reads_back(n: usize)
    ensures
        parse_usize_spec(decimal(n as nat)) == Some(n),
{
    lemma_decimal_digits(n as nat);
    assert(unsigned_digits(decimal(n as nat)) == decimal(n as nat));
}

/// A leading `+` is allowed; an empty text, a lone `+` and a text with
/// any other character than digits (after that `+`) do not read as a
/// number.
pub proof fn law_parse_usize_rejects(n: usize, t: Seq<char>, i: int)
    ensures
        parse_usize_spec(seq!['+'] + decimal(n as nat)) == Some(n),
        parse_usize_spec(Seq::<char>::empty()) is None,
        parse_usize_spec(seq!['+']) is None,
        0 <= i < t.len() && !is_digit(t[i]) && !(i == 0 && t[i] == '+') ==> parse_usize_spec(t)
            is None,
{
    lemma_decimal_digits(n as nat);
    let p = seq!['+'] + decimal(n as nat);
    assert(p.drop_first() =~= decimal(n as nat));
    assert(unsigned_digits(p) == decimal(n as nat));
    assert(seq!['+'].drop_first() =~= Seq::<char>::empty());
    if 0 <= i < t.len() && !is_digit(t[i]) && !(i == 0 && t[i] == '+') {
        let d = unsigned_digits(t);
        if t.len() > 0 && t[0] == '+' {
            assert(d[i - 1] == t[i]);
        } else {
            assert(d[i] == t[i]);
        }
    }
}

} // verus!
