//! Numbers written out as text, and text put together character by character.

use vstd::prelude::*;
use crate::utf8_bytes::to_chars;

verus! {

/// The character of the digit `d` of a base up to sixteen, small letters
/// after nine.
pub open spec fn digit_char(d: int) -> char {
    if d < 10 {
        ((48 + d) as u8) as char
    } else {
        ((87 + d) as u8) as char
    }
}

/// The decimal digits of `n`, without leading zeros; zero is written `0`.
pub open spec fn decimal(n: nat) -> Seq<char>
    decreases n,
{
    if n < 10 {
        seq![digit_char(n as int)]
    } else {
        decimal(n / 10).push(digit_char((n % 10) as int))
    }
}

/// The hexadecimal digits of `n` in small letters, without leading zeros;
/// zero is written `0`.
pub open spec fn hexadecimal(n: nat) -> Seq<char>
    decreases n,
{
    if n < 16 {
        seq![digit_char(n as int)]
    } else {
        hexadecimal(n / 16).push(digit_char((n % 16) as int))
    }
}

/// A string of `count` zeros.
pub open spec fn zeros(count: int) -> Seq<char> {
    Seq::new(
        if count > 0 {
            count as nat
        } else {
            0
        },
        |k: int| '0',
    )
}

/// The decimal digits of `n`, with zeros before them up to the width `width`.
pub open spec fn padded(n: nat, width: nat) -> Seq<char> {
    zeros(width - decimal(n).len()) + decimal(n)
}

/// The character of the digit `d`.
fn digit(d: u8) -> (c: char)
    requires
        d < 16,
    ensures
        c == digit_char(d as int),
{
    if d < 10 {
        (48 + d) as char
    } else {
        (87 + d) as char
    }
}

/// Writes `n` in decimal at the end of `out`.
pub fn push_decimal(out: &mut Vec<char>, n: u64)
    ensures
        final(out)@ == old(out)@ + decimal(n as nat),
    decreases n,
{
    if n >= 10 {
        push_decimal(out, n / 10);
    }
    out.push(digit((n % 10) as u8));
}

/// Writes `n` in hexadecimal at the end of `out`.
pub fn push_hexadecimal(out: &mut Vec<char>, n: u64)
    ensures
        final(out)@ == old(out)@ + hexadecimal(n as nat),
    decreases n,
{
    if n >= 16 {
        push_hexadecimal(out, n / 16);
    }
    out.push(digit((n % 16) as u8));
}

/// Writes `n` in decimal at the end of `out`, with zeros before it up to
/// the width `width`.
pub fn push_padded(out: &mut Vec<char>, n: u64, width: usize)
    ensures
        final(out)@ == old(out)@ + padded(n as nat, width as nat),
{
    let mut number: Vec<char> = Vec::new();
    push_decimal(&mut number, n);
    let missing: usize = if number.len() < width {
        width - number.len()
    } else {
        0
    };
    let mut k: usize = 0;
    while k < missing
        invariant
            k <= missing,
            out@ == old(out)@ + zeros(k as int),
        decreases missing - k,
    {
        out.push('0');
        k += 1;
    }
    out.append(&mut number);
}

/// Writes `text` at the end of `out`.
pub fn push_text(out: &mut Vec<char>, text: &str)
    ensures
        final(out)@ == old(out)@ + text@,
{
    let mut chars = to_chars(text);
    out.append(&mut chars);
}

} // verus!
