//! Building and reading text, one character at a time.

use vstd::prelude::*;
use vstd::string::StrSliceExecFns;

verus! {

/// `String::push` of the standard library: the string afterwards is the
/// string before with the character added at its end.
pub assume_specification[ String::push ](s: &mut String, ch: char)
    ensures
        final(s)@ == old(s)@.push(ch),
;

/// The characters of a string, in order.
pub fn chars_of(s: &str) -> (v: Vec<char>)
    ensures
        v@ == s@,
{
    let n = s.unicode_len();
    let mut v: Vec<char> = Vec::new();
    let mut i: usize = 0;
    while i < n
        invariant
            i <= n,
            n == s@.len(),
            v@ == s@.subrange(0, i as int),
        decreases n - i,
    {
        v.push(s.get_char(i));
        i += 1;
        assert(v@ =~= s@.subrange(0, i as int));
    }
    assert(v@ =~= s@);
    v
}

/// The string made of the given characters, in order.
pub fn string_of(chars: &Vec<char>) -> (s: String)
    ensures
        s@ == chars@,
{
    let mut s = String::new();
    let mut i: usize = 0;
    while i < chars.len()
        invariant
            i <= chars.len(),
            s@ == chars@.subrange(0, i as int),
        decreases chars.len() - i,
    {
        s.push(chars[i]);
        i += 1;
        assert(s@ =~= chars@.subrange(0, i as int));
    }
    assert(s@ =~= chars@);
    s
}

/// Appends the characters of a text.
pub fn push_text(out: &mut Vec<char>, text: &str)
    ensures
        final(out)@ == old(out)@ + text@,
{
    let letters = chars_of(text);
    let ghost start = out@;
    let mut k: usize = 0;
    while k < letters.len()
        invariant
            k <= letters.len(),
            out@ == start + letters@.subrange(0, k as int),
        decreases letters.len() - k,
    {
        out.push(letters[k]);
        k += 1;
        assert(out@ =~= start + letters@.subrange(0, k as int));
    }
    assert(letters@.subrange(0, letters.len() as int) =~= letters@);
}

/// Appends the characters of a list.
pub fn push_chars(out: &mut Vec<char>, chars: &Vec<char>)
    ensures
        final(out)@ == old(out)@ + chars@,
{
    let ghost start = out@;
    let mut k: usize = 0;
    while k < chars.len()
        invariant
            k <= chars.len(),
            out@ == start + chars@.subrange(0, k as int),
        decreases chars.len() - k,
    {
        out.push(chars[k]);
        k += 1;
        assert(out@ =~= start + chars@.subrange(0, k as int));
    }
    assert(chars@.subrange(0, chars.len() as int) =~= chars@);
}

/// The decimal digit `'0'` to `'9'` that stands for `d`.
pub open spec fn digit_char(d: int) -> char {
    if d == 0 {
        '0'
    } else if d == 1 {
        '1'
    } else if d == 2 {
        '2'
    } else if d == 3 {
        '3'
    } else if d == 4 {
        '4'
    } else if d == 5 {
        '5'
    } else if d == 6 {
        '6'
    } else if d == 7 {
        '7'
    } else if d == 8 {
        '8'
    } else {
        '9'
    }
}

/// The decimal digits of `n`, most significant first, without leading zeros.
pub open spec fn decimal(n: nat) -> Seq<char>
    decreases n,
{
    if n < 10 {
        seq![digit_char(n as int)]
    } else {
        decimal(n / 10).push(digit_char((n % 10) as int))
    }
}

/// The number that a sequence of decimal digits stands for.
pub open spec fn decimal_value(s: Seq<char>) -> nat
    decreases s.len(),
{
    if s.len() == 0 {
        0
    } else {
        decimal_value(s.drop_last()) * 10 + digit_value(s.last()) as nat
    }
}

/// The value of a decimal digit, and -1 for any other character.
pub open spec fn digit_value(c: char) -> int {
    if c == '0' {
        0
    } else if c == '1' {
        1
    } else if c == '2' {
        2
    } else if c == '3' {
        3
    } else if c == '4' {
        4
    } else if c == '5' {
        5
    } else if c == '6' {
        6
    } else if c == '7' {
        7
    } else if c == '8' {
        8
    } else if c == '9' {
        9
    } else {
        -1
    }
}

/// Whether the character is a decimal digit.
pub open spec fn is_digit(c: char) -> bool {
    digit_value(c) >= 0
}

/// The value of a decimal digit, if the character is one.
pub fn digit_of(c: char) -> (r: Option<u8>)
    ensures
        r.is_some() == is_digit(c),
        r.is_some() ==> r.unwrap() == digit_value(c) && digit_char(digit_value(c)) == c,
{
    match c {
        '0' => Some(0),
        '1' => Some(1),
        '2' => Some(2),
        '3' => Some(3),
        '4' => Some(4),
        '5' => Some(5),
        '6' => Some(6),
        '7' => Some(7),
        '8' => Some(8),
        '9' => Some(9),
        _ => None,
    }
}

/// The character of a decimal digit.
pub fn char_of_digit(d: u8) -> (c: char)
    requires
        d < 10,
    ensures
        c == digit_char(d as int),
        digit_value(c) == d,
{
    match d {
        0 => '0',
        1 => '1',
        2 => '2',
        3 => '3',
        4 => '4',
        5 => '5',
        6 => '6',
        7 => '7',
        8 => '8',
        _ => '9',
    }
}

/// Reading back the decimal digits of a number gives the number.
pub proof fn lemma_decimal_round_trip(n: nat)
    ensures
        decimal_value(decimal(n)) == n,
        decimal(n).len() >= 1,
        forall|i: int| 0 <= i < decimal(n).len() ==> is_digit(#[trigger] decimal(n)[i]),
    decreases n,
{
    if n < 10 {
        let s = decimal(n);
        assert(s.drop_last() =~= Seq::<char>::empty());
        assert(decimal_value(s.drop_last()) == 0);
    } else {
        lemma_decimal_round_trip(n / 10);
        let s = decimal(n);
        assert(s.drop_last() =~= decimal(n / 10));
    }
}

/// Appends the decimal digits of `n` to `out`.
pub fn push_decimal(out: &mut Vec<char>, n: u16)
    ensures
        final(out)@ == old(out)@ + decimal(n as nat),
{
    // The digits come out least significant first.
    let mut digits: Vec<char> = Vec::new();
    let mut rest: u16 = n / 10;
    digits.push(char_of_digit((n % 10) as u8));
    proof {
        let d = digit_char((n % 10) as int);
        assert(digits@.reverse() =~= seq![d]);
        if n >= 10 {
            assert(decimal(n as nat) =~= decimal(rest as nat) + digits@.reverse());
        }
    }
    while rest > 0
        invariant
            rest > 0 ==> decimal(n as nat) == decimal(rest as nat) + digits@.reverse(),
            rest == 0 ==> decimal(n as nat) == digits@.reverse(),
        decreases rest,
    {
        let ghost before = digits@;
        let ghost r0 = rest;
        digits.push(char_of_digit((rest % 10) as u8));
        rest = rest / 10;
        proof {
            let d = digit_char((r0 % 10) as int);
            assert(digits@ == before.push(d));
            assert(digits@.reverse() =~= seq![d] + before.reverse());
            if r0 < 10 {
                assert(decimal(r0 as nat) =~= seq![d]);
                assert(decimal(n as nat) =~= digits@.reverse());
            } else {
                assert(decimal(r0 as nat) =~= decimal(rest as nat).push(d));
                assert(decimal(n as nat) =~= decimal(rest as nat) + digits@.reverse());
            }
        }
    }
    let ghost start = out@;
    let ghost rev = digits@.reverse();
    let mut i: usize = digits.len();
    while i > 0
        invariant
            i <= digits.len(),
            rev == digits@.reverse(),
            out@ == start + rev.subrange(0, digits.len() - i),
        decreases i,
    {
        i -= 1;
        out.push(digits[i]);
        assert(rev[digits.len() - 1 - i] == digits[i as int]);
        assert(out@ =~= start + rev.subrange(0, digits.len() - i));
    }
    assert(rev.subrange(0, digits.len() as int) =~= rev);
}

} // verus!
