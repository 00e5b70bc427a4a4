//! Decimal notation for integers and fixed-point quantities.
//!
//! Lengths, angles, crop fractions and colour channels are held as integers
//! in millionths of their unit. The functions here divide with rounding to
//! the nearest integer (halves away from zero) and write a scaled integer
//! with a fixed number of fraction digits.

use vstd::prelude::*;

verus! {

/// The character of a decimal digit.
pub open spec fn digit(d: int) -> char {
    seq!['0', '1', '2', '3', '4', '5', '6', '7', '8', '9'][d]
}

/// The decimal digits of `n`, without leading zeros.
pub open spec fn digits(n: nat) -> Seq<char>
    decreases n,
{
    if n < 10 {
        seq![digit(n as int)]
    } else {
        digits(n / 10).push(digit((n % 10) as int))
    }
}

/// The last `width` decimal digits of `n`, with leading zeros.
pub open spec fn padded_digits(n: nat, width: nat) -> Seq<char>
    decreases width,
{
    if width == 0 {
        Seq::empty()
    } else {
        padded_digits(n / 10, (width - 1) as nat).push(digit((n % 10) as int))
    }
}

/// Ten to the power `k`.
pub open spec fn pow10(k: nat) -> nat
    decreases k,
{
    if k == 0 {
        1
    } else {
        10 * pow10((k - 1) as nat)
    }
}

/// The absolute value of `n`.
pub open spec fn magnitude(n: int) -> nat {
    if n < 0 {
        (-n) as nat
    } else {
        n as nat
    }
}

/// The quotient `p / q` rounded to the nearest integer, halves away from zero.
pub open spec fn round_div(p: int, q: int) -> int
    recommends
        q > 0,
{
    if p >= 0 {
        (2 * p + q) / (2 * q)
    } else {
        -((2 * (-p) + q) / (2 * q))
    }
}

/// The decimal notation of `n / 10^places` with exactly `places` fraction
/// digits: a minus sign for negative values, the integer part, and, where
/// `places` is positive, a point and the fraction digits.
pub open spec fn fixed_text(n: int, places: nat) -> Seq<char> {
    let m = magnitude(n);
    let sign = if n < 0 {
        seq!['-']
    } else {
        Seq::<char>::empty()
    };
    let whole = digits(m / pow10(places));
    if places == 0 {
        sign + whole
    } else {
        sign + whole + seq!['.'] + padded_digits(m % pow10(places), places)
    }
}

/// The character of the decimal digit `d`.
pub fn digit_char(d: u8) -> (c: char)
    requires
        d < 10,
    ensures
        c == digit(d as int),
{
    match d {
        0 => '0',
        1 => '1',
        2 => '2',
        3 => '3',
        4 => '4',
        5 => '5',
        6 => '6',
        7 => '7',
        8 => '8',
        _ => '9',
    }
}

/// Appends the decimal digits of `n` to `buf`.
pub fn push_digits(buf: &mut Vec<char>, n: u128)
    ensures
        final(buf)@ == old(buf)@ + digits(n as nat),
    decreases n,
{
    if n >= 10 {
        push_digits(buf, n / 10);
    }
    let d: u8 = (n % 10) as u8;
    buf.push(digit_char(d));
    assert(buf@ == old(buf)@ + digits(n as nat));
}

/// Appends the last `width` decimal digits of `n` to `buf`, zero-padded.
pub fn push_padded(buf: &mut Vec<char>, n: u128, width: u8)
    ensures
        final(buf)@ == old(buf)@ + padded_digits(n as nat, width as nat),
    decreases width,
{
    if width > 0 {
        push_padded(buf, n / 10, width - 1);
        let d: u8 = (n % 10) as u8;
        buf.push(digit_char(d));
    }
    assert(buf@ == old(buf)@ + padded_digits(n as nat, width as nat));
}

/// Ten to the power `places`.
pub fn scale_of(places: u8) -> (s: u128)
    requires
        places <= 18,
    ensures
        s == pow10(places as nat),
        1 <= s <= 1_000_000_000_000_000_000,
{
    let mut s: u128 = 1;
    let mut k: u8 = 0;
    proof {
        lemma_pow10_bounds(0);
    }
    while k < places
        invariant
            k <= places <= 18,
            s == pow10(k as nat),
            1 <= s <= 1_000_000_000_000_000_000,
        decreases places - k,
    {
        proof {
            lemma_pow10_bounds((k + 1) as nat);
        }
        s = s * 10;
        k += 1;
    }
    s
}

/// Powers of ten up to the eighteenth lie between one and `10^18`.
pub proof fn lemma_pow10_bounds(k: nat)
    requires
        k <= 18,
    ensures
        1 <= pow10(k) <= 1_000_000_000_000_000_000,
{
    reveal_with_fuel(pow10, 20);
}

/// Appends to `buf` the decimal notation of `n / 10^places`.
pub fn push_fixed(buf: &mut Vec<char>, n: i128, places: u8)
    requires
        places <= 18,
        n > i128::MIN,
    ensures
        final(buf)@ == old(buf)@ + fixed_text(n as int, places as nat),
{
    let scale: u128 = scale_of(places);
    let m: u128 = if n < 0 {
        (-n) as u128
    } else {
        n as u128
    };
    assert(m == magnitude(n as int));
    if n < 0 {
        buf.push('-');
    }
    push_digits(buf, m / scale);
    if places > 0 {
        buf.push('.');
        push_padded(buf, m % scale, places);
    }
    assert(buf@ == old(buf)@ + fixed_text(n as int, places as nat));
}

/// `p / q` rounded to the nearest integer, halves away from zero.
pub fn rounded_quotient(p: i128, q: i128) -> (r: i128)
    requires
        q > 0,
        -0x1000_0000_0000_0000_0000_0000_0000_0000 < p < 0x1000_0000_0000_0000_0000_0000_0000_0000,
        q < 0x1000_0000_0000_0000_0000_0000_0000_0000,
    ensures
        r == round_div(p as int, q as int),
        magnitude(r as int) <= magnitude(p as int),
{
    if p >= 0 {
        let r: i128 = (2 * p + q) / (2 * q);
        assert(r <= p) by (nonlinear_arith)
            requires
                r == (2 * p + q) / (2 * q),
                p >= 0,
                q > 0,
        ;
        r
    } else {
        let a: i128 = -p;
        let r: i128 = (2 * a + q) / (2 * q);
        assert(0 <= r <= a) by (nonlinear_arith)
            requires
                r == (2 * a + q) / (2 * q),
                a >= 0,
                q > 0,
        ;
        -r
    }
}

} // verus!
