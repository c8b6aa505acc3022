//! Characters of strings, and decimal numbers in text.

use vstd::prelude::*;
use vstd::string::*;

verus! {

/// Numbers read from text are exact up to this bound; beyond it only the fact
/// that they are larger is kept.
pub const NUMBER_CAP: u32 = 1_000_000;

/// `String::push` appends one character to the string.
pub assume_specification[ String::push ](s: &mut String, c: char)
    ensures
        final(s)@ == old(s)@.push(c),
;

pub open spec fn is_digit(c: char) -> bool {
    '0' <= c && c <= '9'
}

pub open spec fn digit_value(c: char) -> nat {
    (c as int - 48) as nat
}

pub open spec fn digit_char(d: nat) -> char {
    (d + 48) as char
}

pub open spec fn all_digits(s: Seq<char>) -> bool {
    forall|i: int| 0 <= i < s.len() ==> is_digit(#[trigger] s[i])
}

/// The number that a run of decimal digits writes.
pub open spec fn digits_value(s: Seq<char>) -> nat
    decreases s.len(),
{
    if s.len() == 0 {
        0
    } else {
        digits_value(s.drop_last()) * 10 + digit_value(s.last())
    }
}

/// The decimal digits of `n`, without leading zeros.
pub open spec fn decimal(n: nat) -> Seq<char>
    decreases n,
{
    if n < 10 {
        seq![digit_char(n)]
    } else {
        decimal(n / 10).push(digit_char(n % 10))
    }
}

/// `v` in decimal, with a leading `-` when it is negative.
pub open spec fn signed_decimal(v: int) -> Seq<char> {
    if v < 0 {
        seq!['-'] + decimal((-v) as nat)
    } else {
        decimal(v as nat)
    }
}

/// The value of an unsigned decimal number: an optional `+`, then one or more digits.
pub open spec fn unsigned_value(s: Seq<char>) -> Option<nat> {
    let digits = if s.len() > 0 && s[0] == '+' {
        s.skip(1)
    } else {
        s
    };
    if digits.len() > 0 && all_digits(digits) {
        Some(digits_value(digits))
    } else {
        None
    }
}

/// The value of a decimal number with an optional sign: `-` or `+`, then one or more digits.
pub open spec fn signed_value(s: Seq<char>) -> Option<int> {
    if s.len() > 0 && s[0] == '-' {
        let digits = s.skip(1);
        if digits.len() > 0 && all_digits(digits) {
            Some(-(digits_value(digits) as int))
        } else {
            None
        }
    } else {
        match unsigned_value(s) {
            Some(n) => Some(n as int),
            None => None,
        }
    }
}

/// `v`, or the nearer of `-NUMBER_CAP` and `NUMBER_CAP` where it lies outside them.
pub open spec fn capped(v: int) -> int {
    if v > NUMBER_CAP {
        NUMBER_CAP as int
    } else if v < -NUMBER_CAP {
        -NUMBER_CAP
    } else {
        v
    }
}

pub proof fn lemma_digits_value_push(s: Seq<char>, c: char)
    ensures
        digits_value(s.push(c)) == digits_value(s) * 10 + digit_value(c),
{
    assert(s.push(c).drop_last() =~= s);
}

/// Reading back the decimal digits of a number gives the number.
pub proof fn lemma_decimal_round_trip(n: nat)
    ensures
        decimal(n).len() > 0,
        all_digits(decimal(n)),
        digits_value(decimal(n)) == n,
    decreases n,
{
    if n < 10 {
        assert(seq![digit_char(n)].drop_last() =~= Seq::<char>::empty());
        assert(digits_value(Seq::<char>::empty()) == 0);
    } else {
        lemma_decimal_round_trip(n / 10);
        lemma_digits_value_push(decimal(n / 10), digit_char(n % 10));
    }
}

/// Reading back a number written with its sign gives the number.
pub proof fn lemma_signed_decimal_round_trip(v: int)
    ensures
        signed_decimal(v).len() > 0,
        signed_decimal(v)[0] == '-' || is_digit(signed_decimal(v)[0]),
        signed_value(signed_decimal(v)) == Some(v),
{
    if v < 0 {
        let n = (-v) as nat;
        lemma_decimal_round_trip(n);
        assert(signed_decimal(v).skip(1) =~= decimal(n));
    } else {
        lemma_decimal_round_trip(v as nat);
        assert(is_digit(decimal(v as nat)[0]));
    }
}

/// The characters of `s`, in order.
pub(crate) fn chars_of(s: &str) -> (v: Vec<char>)
    ensures
        v@ == s@,
{
    let mut v: Vec<char> = Vec::new();
    for c in it: s.chars()
        invariant
            it.seq() == s@,
            v@ == s@.take(it.index() as int),
    {
        v.push(c);
    }
    v
}

pub(crate) fn is_digit_char(c: char) -> (b: bool)
    ensures
        b == is_digit(c),
{
    '0' <= c && c <= '9'
}

/// The value of the digits `text[start..]`, capped at `NUMBER_CAP`; `None`
/// where they are not one or more decimal digits.
pub(crate) fn digits_from(text: &Vec<char>, start: usize) -> (r: Option<u32>)
    requires
        start <= text.len(),
    ensures
        r is Some <==> start < text.len() && all_digits(text@.skip(start as int)),
        r matches Some(x) ==> x == capped(digits_value(text@.skip(start as int)) as int),
{
    if start >= text.len() {
        return None;
    }
    let mut acc: u32 = 0;
    let mut i: usize = start;
    while i < text.len()
        invariant
            start <= i <= text.len(),
            all_digits(text@.subrange(start as int, i as int)),
            acc == capped(digits_value(text@.subrange(start as int, i as int)) as int),
        decreases text.len() - i,
    {
        let c = text[i];
        if !is_digit_char(c) {
            assert(!is_digit(text@.skip(start as int)[i - start]));
            return None;
        }
        let d: u32 = (c as u32) - 48;
        proof {
            let before = text@.subrange(start as int, i as int);
            assert(text@.subrange(start as int, i + 1) =~= before.push(c));
            lemma_digits_value_push(before, c);
        }
        acc = if acc >= NUMBER_CAP / 10 {
            NUMBER_CAP
        } else {
            acc * 10 + d
        };
        i += 1;
    }
    assert(text@.subrange(start as int, text.len() as int) =~= text@.skip(start as int));
    Some(acc)
}

/// The value of the unsigned decimal number `text[start..]`, capped.
pub(crate) fn unsigned_from(text: &Vec<char>, start: usize) -> (r: Option<u32>)
    requires
        start <= text.len(),
    ensures
        r == match unsigned_value(text@.skip(start as int)) {
            Some(n) => Some(capped(n as int) as u32),
            None => None,
        },
{
    let ghost s = text@.skip(start as int);
    if start < text.len() && text[start] == '+' {
        assert(s.skip(1) =~= text@.skip(start + 1));
        digits_from(text, start + 1)
    } else {
        digits_from(text, start)
    }
}

/// The value of the signed decimal number `text[start..]`, capped.
pub(crate) fn signed_from(text: &Vec<char>, start: usize) -> (r: Option<i32>)
    requires
        start <= text.len(),
    ensures
        r == match signed_value(text@.skip(start as int)) {
            Some(v) => Some(capped(v) as i32),
            None => None,
        },
{
    let ghost s = text@.skip(start as int);
    if start < text.len() && text[start] == '-' {
        assert(s.skip(1) =~= text@.skip(start + 1));
        match digits_from(text, start + 1) {
            Some(n) => Some(-(n as i32)),
            None => None,
        }
    } else {
        match unsigned_from(text, start) {
            Some(n) => Some(n as i32),
            None => None,
        }
    }
}

/// Appends the decimal digits of `n`.
pub(crate) fn push_decimal(out: &mut String, n: u32)
    ensures
        final(out)@ == old(out)@ + decimal(n as nat),
    decreases n,
{
    if n >= 10 {
        push_decimal(out, n / 10);
    }
    let d: u8 = (n % 10) as u8;
    out.push((d + 48) as char);
    assert(final(out)@ =~= old(out)@ + decimal(n as nat));
}

/// Appends `v` in decimal, with a leading `-` when it is negative.
pub(crate) fn push_signed(out: &mut String, v: i32)
    ensures
        final(out)@ == old(out)@ + signed_decimal(v as int),
{
    if v < 0 {
        out.push('-');
        let n: u32 = (-(v as i64)) as u32;
        push_decimal(out, n);
        assert(final(out)@ =~= old(out)@ + signed_decimal(v as int));
    } else {
        push_decimal(out, v as u32);
    }
}

} // verus!
