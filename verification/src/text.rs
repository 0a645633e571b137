//! Text primitives: appending to a `String` and writing integers in decimal.
use vstd::prelude::*;

verus! {

/// `String::push` appends the one character `ch` to `s`.
pub assume_specification[ String::push ](s: &mut String, ch: char)
    ensures
        final(s)@ == old(s)@.push(ch),
;

/// The ASCII character of the decimal digit `d` (for `d < 10`).
pub open spec fn digit_char(d: nat) -> char
    recommends
        d < 10,
{
    if d == 0 { '0' }
    else if d == 1 { '1' }
    else if d == 2 { '2' }
    else if d == 3 { '3' }
    else if d == 4 { '4' }
    else if d == 5 { '5' }
    else if d == 6 { '6' }
    else if d == 7 { '7' }
    else if d == 8 { '8' }
    else { '9' }
}

/// The decimal notation of `n`, most significant digit first, without leading zeros.
pub open spec fn decimal(n: nat) -> Seq<char>
    decreases n,
{
    if n < 10 {
        seq![digit_char(n)]
    } else {
        decimal(n / 10).push(digit_char(n % 10))
    }
}

/// The notation of a signed integer: a minus sign before the decimal notation of its magnitude.
pub open spec fn signed_decimal(n: int) -> Seq<char> {
    if n < 0 {
        seq!['-'] + decimal((-n) as nat)
    } else {
        decimal(n as nat)
    }
}

fn digit(d: u64) -> (c: char)
    requires
        d < 10,
    ensures
        c == digit_char(d as nat),
{
    if d == 0 { '0' }
    else if d == 1 { '1' }
    else if d == 2 { '2' }
    else if d == 3 { '3' }
    else if d == 4 { '4' }
    else if d == 5 { '5' }
    else if d == 6 { '6' }
    else if d == 7 { '7' }
    else if d == 8 { '8' }
    else { '9' }
}

/// Appends the decimal notation of `n` to `s`.
pub fn push_decimal(s: &mut String, n: u64)
    ensures
        final(s)@ == old(s)@ + decimal(n as nat),
    decreases n,
{
    if n >= 10 {
        push_decimal(s, n / 10);
    }
    s.push(digit(n % 10));
    assert(n >= 10 ==> decimal(n as nat) == decimal((n / 10) as nat).push(digit_char((n % 10) as nat)));
}

/// Appends the notation of the signed integer `n` to `s`.
pub fn push_signed_decimal(s: &mut String, n: i64)
    ensures
        final(s)@ == old(s)@ + signed_decimal(n as int),
{
    if n < 0 {
        s.push('-');
        let m: u64 = if n == i64::MIN { 9223372036854775808u64 } else { (-n) as u64 };
        push_decimal(s, m);
        assert(s@ =~= old(s)@ + signed_decimal(n as int));
    } else {
        push_decimal(s, n as u64);
    }
}

/// `s` with each single quote doubled, as SQL string constants write it.
pub open spec fn escape_quotes(s: Seq<char>) -> Seq<char>
    decreases s.len(),
{
    if s.len() == 0 {
        Seq::empty()
    } else {
        let prev = escape_quotes(s.drop_last());
        if s.last() == '\'' {
            prev + seq!['\'', '\'']
        } else {
            prev.push(s.last())
        }
    }
}

/// The SQL string constant for `s`: `'...'`, with each single quote inside doubled.
pub open spec fn sql_string(s: Seq<char>) -> Seq<char> {
    seq!['\''] + escape_quotes(s) + seq!['\'']
}

/// Appends the SQL string constant for `s`.
pub fn push_sql_string(w: &mut String, s: &str)
    ensures
        final(w)@ == old(w)@ + sql_string(s@),
{
    broadcast use vstd::string::group_string_axioms;
    let ghost w0 = w@;
    w.push('\'');
    for c in it: s.chars()
        invariant
            it.seq() == s@,
            w@ == w0 + seq!['\''] + escape_quotes(s@.take(it.index() as int)),
    {
        proof {
            assert(s@.take(it.index() + 1).drop_last() =~= s@.take(it.index() as int));
            assert(s@.take(it.index() + 1).last() == c);
        }
        if c == '\'' {
            w.push('\'');
            w.push('\'');
        } else {
            w.push(c);
        }
        proof {
            assert(w@ =~= w0 + seq!['\''] + escape_quotes(s@.take(it.index() + 1)));
        }
    }
    w.push('\'');
    proof {
        assert(s@.take(s@.len() as int) =~= s@);
        assert(w@ =~= w0 + sql_string(s@));
    }
}

} // verus!

verus! {

/// Whether `c` is one of the digits `0` to `9`.
pub open spec fn is_digit(c: char) -> bool {
    48 <= (c as int) <= 57
}

/// The number that the digits `s` denote, most significant first.
pub open spec fn digits_value(s: Seq<char>) -> int
    decreases s.len(),
{
    if s.len() == 0 {
        0
    } else {
        digits_value(s.drop_last()) * 10 + ((s.last() as int) - 48)
    }
}

/// The decimal notation of `n` is a non-empty run of digits that denotes `n`,
/// with no leading zero.
pub proof fn lemma_decimal_denotes(n: nat)
    ensures
        decimal(n).len() >= 1,
        forall|i: int| 0 <= i < decimal(n).len() ==> is_digit(#[trigger] decimal(n)[i]),
        digits_value(decimal(n)) == n,
        n > 0 ==> decimal(n)[0] != '0',
    decreases n,
{
    let d = (n % 10) as nat;
    assert(digit_char(d) as int - 48 == d && is_digit(digit_char(d)));
    if n < 10 {
        assert(decimal(n).drop_last() =~= Seq::<char>::empty());
        assert(digits_value(Seq::<char>::empty()) == 0);
        assert(decimal(n).last() == digit_char(d));
    } else {
        let q = (n / 10) as nat;
        lemma_decimal_denotes(q);
        let s = decimal(n);
        assert(s == decimal(q).push(digit_char(d)));
        assert(s.drop_last() =~= decimal(q));
        assert(q * 10 + d == n);
        assert(s.last() == digit_char(d));
        assert(digits_value(s) == digits_value(decimal(q)) * 10 + d);
        assert(forall|i: int| 0 <= i < s.len() ==> is_digit(#[trigger] s[i])) by {
            assert forall|i: int| 0 <= i < s.len() implies is_digit(#[trigger] s[i]) by {
                if i < s.len() - 1 {
                    assert(s[i] == decimal(q)[i]);
                }
            }
        }
        assert(s[0] == decimal(q)[0]);
    }
}

/// The notation of a signed integer: for a negative `x`, a minus sign and
/// then digits that denote `-x`; otherwise digits that denote `x`.
pub proof fn lemma_signed_decimal_denotes(x: int)
    ensures
        x < 0 ==> signed_decimal(x)[0] == '-' && digits_value(signed_decimal(x).skip(1)) == -x
            && (forall|i: int| 1 <= i < signed_decimal(x).len() ==> is_digit(#[trigger] signed_decimal(x)[i])),
        x >= 0 ==> digits_value(signed_decimal(x)) == x
            && (forall|i: int| 0 <= i < signed_decimal(x).len() ==> is_digit(#[trigger] signed_decimal(x)[i])),
        signed_decimal(x).len() >= 1,
{
    if x < 0 {
        let m = (-x) as nat;
        lemma_decimal_denotes(m);
        let s = signed_decimal(x);
        assert(s.skip(1) =~= decimal(m));
        assert forall|i: int| 1 <= i < s.len() implies is_digit(#[trigger] s[i]) by {
            assert(s[i] == decimal(m)[i - 1]);
        }
    } else {
        lemma_decimal_denotes(x as nat);
    }
}

/// `s` is a notation of the integer `x`: a minus sign before the digits when
/// `x` is negative, and digits that denote the magnitude of `x`.
pub open spec fn denotes_integer(s: Seq<char>, x: int) -> bool {
    if x < 0 {
        &&& s.len() >= 2
        &&& s[0] == '-'
        &&& forall|i: int| 1 <= i < s.len() ==> is_digit(#[trigger] s[i])
        &&& digits_value(s.skip(1)) == -x
    } else {
        &&& s.len() >= 1
        &&& forall|i: int| 0 <= i < s.len() ==> is_digit(#[trigger] s[i])
        &&& digits_value(s) == x
    }
}

/// The signed notation of an integer denotes that integer.
pub proof fn lemma_signed_decimal_is_notation(x: int)
    ensures
        denotes_integer(signed_decimal(x), x),
{
    lemma_signed_decimal_denotes(x);
    if x < 0 {
        lemma_decimal_denotes((-x) as nat);
    }
}

} // verus!
