//! Numbers as text.
use crate::text::push_text;
use vstd::arithmetic::power::{lemma_pow0, lemma_pow1, lemma_pow_adds, lemma_pow_positive, pow};
use vstd::prelude::*;

verus! {

/// The character of a decimal digit.
pub open spec fn digit(d: int) -> char {
    if d == 0 {
        '0'
    } else if d == 1 {
        '1'
    } else if d == 2 {
        '2'
    } else if d == 3 {
        '3'
    } else if d == 4 {
        '4'
    } else if d == 5 {
        '5'
    } else if d == 6 {
        '6'
    } else if d == 7 {
        '7'
    } else if d == 8 {
        '8'
    } else {
        '9'
    }
}

/// The character of a decimal digit.
pub fn digit_char(d: u64) -> (c: char)
    requires
        d < 10,
    ensures
        c == digit(d as int),
{
    match d {
        0 => '0',
        1 => '1',
        2 => '2',
        3 => '3',
        4 => '4',
        5 => '5',
        6 => '6',
        7 => '7',
        8 => '8',
        _ => '9',
    }
}

/// A number in decimal notation.
pub open spec fn decimal(n: nat) -> Seq<char>
    decreases n,
{
    if n < 10 {
        seq![digit(n as int)]
    } else {
        decimal(n / 10).push(digit((n % 10) as int))
    }
}

/// A number in decimal notation.
pub fn decimal_text(n: u64) -> (s: String)
    ensures
        s@ == decimal(n as nat),
    decreases n,
{
    if n < 10 {
        let mut s = String::new();
        s.push(digit_char(n));
        assert(s@ =~= seq![digit(n as int)]);
        s
    } else {
        let mut s = decimal_text(n / 10);
        s.push(digit_char(n % 10));
        s
    }
}

/// An integer in decimal notation, with a minus sign where it is negative.
pub open spec fn integer(n: int) -> Seq<char> {
    if n < 0 {
        seq!['-'] + decimal((-n) as nat)
    } else {
        decimal(n as nat)
    }
}

/// An integer in decimal notation, with a minus sign where it is negative.
pub fn integer_text(n: i32) -> (s: String)
    ensures
        s@ == integer(n as int),
{
    if n < 0 {
        let mut s = String::new();
        s.push('-');
        assert(s@ =~= seq!['-']);
        push_text(&mut s, decimal_text((-(n as i64)) as u64).as_str());
        s
    } else {
        decimal_text(n as u64)
    }
}

/// The last `width` decimal digits of a number.
pub open spec fn padded_digits(n: nat, width: nat) -> Seq<char>
    decreases width,
{
    if width == 0 {
        Seq::empty()
    } else {
        padded_digits(n / 10, (width - 1) as nat).push(digit((n % 10) as int))
    }
}

/// The last `width` decimal digits of a number.
pub fn padded_text(n: u64, width: usize) -> (s: String)
    ensures
        s@ == padded_digits(n as nat, width as nat),
    decreases width,
{
    if width == 0 {
        String::new()
    } else {
        let mut s = padded_text(n / 10, width - 1);
        s.push(digit_char(n % 10));
        s
    }
}

/// `n` of `10^width` parts as a decimal fraction: nothing for zero, otherwise a point and the
/// digits without zeros at the end.
pub open spec fn fraction(n: nat, width: nat) -> Seq<char>
    decreases width,
{
    if n == 0 || width == 0 {
        Seq::empty()
    } else if n % 10 == 0 {
        fraction(n / 10, (width - 1) as nat)
    } else {
        seq!['.'] + padded_digits(n, width)
    }
}

/// `n` of `10^width` parts as a decimal fraction.
pub fn fraction_text(n: u64, width: usize) -> (s: String)
    ensures
        s@ == fraction(n as nat, width as nat),
    decreases width,
{
    if n == 0 || width == 0 {
        String::new()
    } else if n % 10 == 0 {
        fraction_text(n / 10, width - 1)
    } else {
        let mut s = String::new();
        s.push('.');
        assert(s@ =~= seq!['.']);
        push_text(&mut s, padded_text(n, width).as_str());
        s
    }
}

/// The digits stand one after the other in the order of the characters, from `0` on.
pub proof fn digits_follow_each_other(d: int)
    requires
        0 <= d < 10,
    ensures
        digit(d) as int == '0' as int + d,
{
}

/// The last digit of a number is its remainder by ten, and what stands before it is the number of
/// tens; nothing does where there are none. So no number but zero starts with a zero.
pub proof fn decimal_digits_of_a_number(n: nat)
    ensures
        decimal(n).len() > 0,
        decimal(n).last() as int == '0' as int + n % 10,
        n < 10 ==> decimal(n).len() == 1,
        n >= 10 ==> decimal(n).drop_last() == decimal(n / 10),
        n > 0 ==> decimal(n)[0] != '0',
    decreases n,
{
    if n >= 10 {
        decimal_digits_of_a_number(n / 10);
        assert(decimal(n).drop_last() =~= decimal(n / 10));
    }
}

/// A negative number has a minus sign before the digits of its opposite, and no other has a sign.
pub proof fn signs_of_integers(n: nat)
    ensures
        integer(n as int) == decimal(n),
        n > 0 ==> integer(-(n as int)).len() == decimal(n).len() + 1 && integer(-(n as int))[0] == '-'
            && integer(-(n as int)).skip(1) == decimal(n),
{
    if n > 0 {
        assert(integer(-(n as int)).skip(1) =~= decimal(n));
    }
}

/// Of a number padded to a width, the digit that stands `k` places before the last is that of its
/// power of ten.
pub proof fn padded_digits_by_place(n: nat, width: nat, k: nat)
    requires
        k < width,
    ensures
        padded_digits(n, width).len() == width,
        padded_digits(n, width)[width - 1 - k] == digit((n / pow(10, k) as nat % 10) as int),
    decreases width,
{
    lemma_padded_len(n, width);
    lemma_padded_len(n / 10, (width - 1) as nat);
    let rest = padded_digits(n / 10, (width - 1) as nat);
    if k == 0 {
        lemma_pow0(10);
        assert(n / 1 == n);
    } else {
        assert(padded_digits(n, width)[width - 1 - k] == rest[width - 1 - k]);
        padded_digits_by_place(n / 10, (width - 1) as nat, (k - 1) as nat);
        lemma_pow_positive(10, (k - 1) as nat);
        lemma_pow_positive(10, k);
        lemma_pow_adds(10, 1, (k - 1) as nat);
        lemma_pow1(10);
        let p = pow(10, (k - 1) as nat);
        vstd::arithmetic::div_mod::lemma_div_denominator(n as int, 10, p);
        assert(n / 10 / (p as nat) == n / (pow(10, k) as nat));
    }
}

/// A padded number is as long as its width.
proof fn lemma_padded_len(n: nat, width: nat)
    ensures
        padded_digits(n, width).len() == width,
    decreases width,
{
    if width > 0 {
        lemma_padded_len(n / 10, (width - 1) as nat);
    }
}

/// A fraction is a point and its digits. A zero at the end says nothing: ten times the parts of which
/// there are ten times as many is the same fraction, and nothing at all is no fraction.
pub proof fn fractions_have_no_zero_at_the_end(n: nat, width: nat)
    requires
        width > 0,
    ensures
        fraction(0, width) == Seq::<char>::empty(),
        n > 0 ==> fraction(10 * n, width + 1) == fraction(n, width),
        n % 10 != 0 ==> fraction(n, width).len() == width + 1 && fraction(n, width)[0] == '.'
            && fraction(n, width).skip(1) == padded_digits(n, width),
{
    lemma_padded_len(n, width);
    if n > 0 {
        assert((10 * n) % 10 == 0 && (10 * n) / 10 == n);
    }
    if n % 10 != 0 {
        assert(fraction(n, width).skip(1) =~= padded_digits(n, width));
    }
}

} // verus!
