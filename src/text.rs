//! Decimal text for array positions and small text helpers shared by the
//! path and search grammars.

use vstd::prelude::*;

verus! {

/// The decimal text of a position reads back as that position.
pub proof fn lemma_decimal_text_reads_back(n: usize)
    ensures
        index_of_text(decimal_text(n as nat)) == Some(n),
{
    lemma_decimal_digits(n as nat);
    let t = decimal_text(n as nat);
    assert(t[0] != '+');
    assert(unsigned_body(t) == t);
}

proof fn lemma_digit_char(d: nat)
    requires
        d < 10,
    ensures
        is_digit(digit_char(d)),
        (digit_char(d) as u32) - ('0' as u32) == d,
{
    assert((digit_char(d) as u32) == d + 48);
}

pub proof fn lemma_decimal_digits(n: nat)
    ensures
        decimal_text(n).len() > 0,
        all_digits(decimal_text(n)),
        digits_value(decimal_text(n)) == n,
    decreases n,
{
    let t = decimal_text(n);
    if n < 10 {
        assert(t.drop_last() =~= Seq::<char>::empty());
        assert(t.last() == digit_char(n));
        lemma_digit_char(n);
        assert(digits_value(t.drop_last()) == 0);
        assert(digits_value(t) == 10 * digits_value(t.drop_last()) + ((t.last() as u32) - ('0' as u32)) as nat);
    } else {
        lemma_decimal_digits(n / 10);
        let prev = decimal_text(n / 10);
        assert(t.drop_last() =~= prev);
        assert(t.last() == digit_char(n % 10));
        lemma_digit_char(n % 10);
        assert forall|i: int| 0 <= i < t.len() implies is_digit(#[trigger] t[i]) by {
            if i < prev.len() {
                assert(t[i] == prev[i]);
            }
        }
        assert(digits_value(t) == 10 * digits_value(prev) + ((t.last() as u32) - ('0' as u32)) as nat);
        assert(n == 10 * (n / 10) + n % 10) by (nonlinear_arith);
    }
}

/// Whether `c` is one of the ASCII digits `0` to `9`.
pub open spec fn is_digit(c: char) -> bool {
    '0' <= c && c <= '9'
}

/// Whether every character of `s` is an ASCII digit.
pub open spec fn all_digits(s: Seq<char>) -> bool {
    forall|i: int| 0 <= i < s.len() ==> is_digit(#[trigger] s[i])
}

/// The number that a run of digits spells in base ten.
pub open spec fn digits_value(s: Seq<char>) -> nat
    decreases s.len(),
{
    if s.len() == 0 {
        0
    } else {
        10 * digits_value(s.drop_last()) + ((s.last() as u32) - ('0' as u32)) as nat
    }
}

/// The digits of a token, once an optional leading `+` is set aside.
pub open spec fn unsigned_body(t: Seq<char>) -> Seq<char> {
    if t.len() > 0 && t[0] == '+' {
        t.drop_first()
    } else {
        t
    }
}

/// The position that a token denotes, if it reads as a non-negative integer
/// that fits in `usize`: an optional `+` followed by one or more digits.
pub open spec fn index_of_text(t: Seq<char>) -> Option<usize> {
    let d = unsigned_body(t);
    if d.len() > 0 && all_digits(d) && digits_value(d) <= usize::MAX {
        Some(digits_value(d) as usize)
    } else {
        None
    }
}

/// The character of the digit `d`, for `d` below ten.
pub open spec fn digit_char(d: nat) -> char {
    ((d + ('0' as u32)) as u32) as char
}

/// The shortest decimal text of `n`.
pub open spec fn decimal_text(n: nat) -> Seq<char>
    decreases n,
{
    if n < 10 {
        seq![digit_char(n)]
    } else {
        decimal_text(n / 10).push(digit_char(n % 10))
    }
}

/// Reads a token as an array position, exactly as [`index_of_text`] says.
pub fn parse_index(t: &[char]) -> (r: Option<usize>)
    ensures
        r == index_of_text(t@),
{
    let start: usize = if t.len() > 0 && t[0] == '+' { 1 } else { 0 };
    let ghost d = unsigned_body(t@);
    assert(d == t@.subrange(start as int, t@.len() as int));
    if start == t.len() {
        return None;
    }
    let mut acc: usize = 0;
    let mut overflowed = false;
    let mut i: usize = start;
    while i < t.len()
        invariant
            start <= i <= t.len(),
            d == t@.subrange(start as int, t@.len() as int),
            d == unsigned_body(t@),
            d.len() > 0,
            all_digits(d.take(i - start)),
            !overflowed ==> acc as nat == digits_value(d.take(i - start)),
            overflowed ==> digits_value(d.take(i - start)) > usize::MAX,
        decreases t.len() - i,
    {
        let c = t[i];
        let ghost pre = d.take(i - start);
        let ghost next = d.take(i + 1 - start);
        assert(next.drop_last() == pre);
        assert(next.last() == c);
        if !('0' <= c && c <= '9') {
            assert(d[i - start] == c);
            assert(!is_digit(d[(i - start) as int]));
            assert(!all_digits(d));
            return None;
        }
        let digit = (c as u32 - '0' as u32) as usize;
        if !overflowed {
            match acc.checked_mul(10) {
                Some(m) => match m.checked_add(digit) {
                    Some(v) => {
                        acc = v;
                    },
                    None => {
                        overflowed = true;
                    },
                },
                None => {
                    overflowed = true;
                },
            }
        }
        assert(all_digits(next)) by {
            assert forall|k: int| 0 <= k < next.len() implies is_digit(#[trigger] next[k]) by {
                if k < pre.len() {
                    assert(next[k] == pre[k]);
                }
            }
        }
        i = i + 1;
    }
    assert(d.take(i - start) == d);
    if overflowed {
        None
    } else {
        Some(acc)
    }
}

/// Appends the shortest decimal text of `n` to `out`.
pub fn push_decimal(n: usize, out: &mut Vec<char>)
    ensures
        final(out)@ == old(out)@ + decimal_text(n as nat),
    decreases n,
{
    if n >= 10 {
        push_decimal(n / 10, out);
    }
    let d = (n % 10) as u32;
    let c = ((d + ('0' as u32)) as u8) as char;
    assert(c == digit_char((n % 10) as nat));
    out.push(c);
    assert(decimal_text(n as nat) == (if n < 10 {
        seq![digit_char(n as nat)]
    } else {
        decimal_text((n / 10) as nat).push(digit_char((n % 10) as nat))
    }));
}

/// The tokens of `s` between dots, in order, as `str::split('.')` yields
/// them: one more token than there are dots, empty ones included.
pub open spec fn split_on_dot(s: Seq<char>) -> Seq<Seq<char>>
    decreases s.len(),
{
    if s.len() == 0 {
        seq![Seq::empty()]
    } else {
        let prev = split_on_dot(s.drop_last());
        if s.last() == '.' {
            prev.push(Seq::empty())
        } else {
            prev.update(prev.len() - 1, prev.last().push(s.last()))
        }
    }
}

/// The tokens of `toks` that are not empty, in order.
pub open spec fn non_empty(toks: Seq<Seq<char>>) -> Seq<Seq<char>>
    decreases toks.len(),
{
    if toks.len() == 0 {
        Seq::empty()
    } else if toks.last().len() > 0 {
        non_empty(toks.drop_last()).push(toks.last())
    } else {
        non_empty(toks.drop_last())
    }
}

proof fn lemma_split_not_empty(s: Seq<char>)
    ensures
        split_on_dot(s).len() >= 1,
    decreases s.len(),
{
    if s.len() > 0 {
        lemma_split_not_empty(s.drop_last());
    }
}

/// Splitting text that ends in a dot and then a run without dots gives
/// the tokens of what comes before the dot, then that run.
pub proof fn lemma_split_after_dot(a: Seq<char>, b: Seq<char>)
    requires
        forall|i: int| 0 <= i < b.len() ==> b[i] != '.',
    ensures
        split_on_dot(a + seq!['.'] + b) == split_on_dot(a).push(b),
    decreases b.len(),
{
    if b.len() == 0 {
        assert(a + seq!['.'] + b =~= a.push('.'));
        assert(a.push('.').drop_last() =~= a);
        assert(b =~= Seq::<char>::empty());
    } else {
        let b0 = b.drop_last();
        assert forall|i: int| 0 <= i < b0.len() implies b0[i] != '.' by {
            assert(b0[i] == b[i]);
        }
        lemma_split_after_dot(a, b0);
        let s = a + seq!['.'] + b;
        assert(s.drop_last() =~= a + seq!['.'] + b0);
        assert(s.last() == b.last());
        assert(b[b.len() - 1] != '.');
        assert(b0.push(b.last()) =~= b);
        let prev = split_on_dot(a).push(b0);
        assert(prev.update(prev.len() - 1, prev.last().push(b.last())) =~= split_on_dot(a).push(b));
    }
}

/// The tokens of `toks` that are not empty are all of them, when none is.
pub proof fn lemma_non_empty_keeps_all(toks: Seq<Seq<char>>)
    requires
        forall|i: int| 0 <= i < toks.len() ==> (#[trigger] toks[i]).len() > 0,
    ensures
        non_empty(toks) == toks,
    decreases toks.len(),
{
    if toks.len() > 0 {
        let prev = toks.drop_last();
        assert forall|i: int| 0 <= i < prev.len() implies (#[trigger] prev[i]).len() > 0 by {
            assert(prev[i] == toks[i]);
        }
        lemma_non_empty_keeps_all(prev);
        assert(prev.push(toks.last()) =~= toks);
    }
}

/// Splits `s` on every dot, as [`split_on_dot`] says.
pub fn split_dots(s: &[char]) -> (r: Vec<Vec<char>>)
    ensures
        r@.len() >= 1,
        r@.len() == split_on_dot(s@).len(),
        forall|i: int| 0 <= i < r@.len() ==> (#[trigger] r@[i])@ == split_on_dot(s@)[i],
{
    let mut r: Vec<Vec<char>> = Vec::new();
    r.push(Vec::new());
    let mut i: usize = 0;
    while i < s.len()
        invariant
            i <= s.len(),
            r@.len() >= 1,
            r@.len() == split_on_dot(s@.take(i as int)).len(),
            forall|k: int| 0 <= k < r@.len() ==> (#[trigger] r@[k])@ == split_on_dot(s@.take(i as int))[k],
        decreases s.len() - i,
    {
        let c = s[i];
        let ghost prev = s@.take(i as int);
        let ghost next = s@.take(i + 1);
        assert(next.drop_last() == prev);
        assert(next.last() == c);
        proof {
            lemma_split_not_empty(prev);
        }
        if c == '.' {
            r.push(Vec::new());
        } else {
            let mut tok = r.pop().unwrap();
            tok.push(c);
            r.push(tok);
        }
        i = i + 1;
    }
    assert(s@.take(s@.len() as int) == s@);
    r
}

/// Relies on `str::chars`, collected into a `Vec`: the characters of `s`, in order.
#[verifier::external_body]
pub(crate) fn chars_of(s: &str) -> (r: Vec<char>)
    ensures
        r@ == s@,
{
    s.chars().collect()
}

/// Relies on `String`'s `FromIterator<char>`: the string of exactly these characters.
#[verifier::external_body]
pub(crate) fn string_of(cs: &[char]) -> (r: String)
    ensures
        r@ == cs@,
{
    cs.iter().collect()
}

} // verus!
