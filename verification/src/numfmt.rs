//! Integers written out as text.

use vstd::prelude::*;

verus! {

/// The character for a digit below sixteen, with lower-case letters from
/// ten on.
pub open spec fn digit_char(d: int) -> char {
    if d < 10 {
        (48 + d) as char
    } else {
        (87 + d) as char
    }
}

/// `n` in decimal, most significant digit first, without leading zeros.
pub open spec fn decimal_digits(n: nat) -> Seq<char>
    decreases n,
{
    if n < 10 {
        seq![digit_char(n as int)]
    } else {
        decimal_digits(n / 10).push(digit_char((n % 10) as int))
    }
}

/// `n` in decimal, with a minus sign where it is negative.
pub open spec fn decimal(n: int) -> Seq<char> {
    if n < 0 {
        seq!['-'] + decimal_digits((-n) as nat)
    } else {
        decimal_digits(n as nat)
    }
}

/// `n` in hexadecimal with lower-case letters, most significant digit first,
/// without leading zeros.
pub open spec fn lower_hex(n: nat) -> Seq<char>
    decreases n,
{
    if n < 16 {
        seq![digit_char(n as int)]
    } else {
        lower_hex(n / 16).push(digit_char((n % 16) as int))
    }
}

fn digit_of(d: u8) -> (c: char)
    requires
        d < 16,
    ensures
        c == digit_char(d as int),
{
    if d < 10 {
        (48u8 + d) as char
    } else {
        (87u8 + d) as char
    }
}

/// The decimal digits of `n`.
pub fn decimal_digits_of(n: u64) -> (r: Vec<char>)
    ensures
        r@ == decimal_digits(n as nat),
    decreases n,
{
    if n < 10 {
        let mut r: Vec<char> = Vec::new();
        r.push(digit_of(n as u8));
        r
    } else {
        let mut r = decimal_digits_of(n / 10);
        r.push(digit_of((n % 10) as u8));
        r
    }
}

/// `n` in decimal.
pub fn decimal_of(n: i64) -> (r: Vec<char>)
    ensures
        r@ == decimal(n as int),
{
    if n < 0 {
        let m: u64 = if n == i64::MIN {
            9223372036854775808u64
        } else {
            (-n) as u64
        };
        let d = decimal_digits_of(m);
        let mut r: Vec<char> = Vec::new();
        r.push('-');
        let mut i: usize = 0;
        while i < d.len()
            invariant
                i <= d.len(),
                r@ == seq!['-'] + d@.take(i as int),
            decreases d.len() - i,
        {
            r.push(d[i]);
            i += 1;
        }
        proof {
            assert(d@.take(d.len() as int) == d@);
        }
        r
    } else {
        decimal_digits_of(n as u64)
    }
}

/// `n` in decimal.
pub fn decimal_of_usize(n: usize) -> (r: Vec<char>)
    ensures
        r@ == decimal(n as int),
{
    decimal_digits_of(n as u64)
}

/// `n` in hexadecimal, with lower-case letters.
pub fn lower_hex_of(n: u64) -> (r: Vec<char>)
    ensures
        r@ == lower_hex(n as nat),
    decreases n,
{
    if n < 16 {
        let mut r: Vec<char> = Vec::new();
        r.push(digit_of(n as u8));
        r
    } else {
        let mut r = lower_hex_of(n / 16);
        r.push(digit_of((n % 16) as u8));
        r
    }
}

} // verus!
