//! Rendering the parsed value back to text: decimal digits with no prefix
//! for a value that came from a hex literal, uppercase hex digits behind a
//! `0X` prefix for a value that came from a decimal literal.

use vstd::prelude::*;

use crate::numeral::UPPER_X;
use crate::numeral::ZERO;
use crate::numeral::dec_digit_byte;
use crate::numeral::dec_digits_of;
use crate::numeral::hex_digit_byte;
use crate::numeral::hex_digits_of;
use crate::parse::Output;

verus! {

/// The text a parsed input renders to.
pub open spec fn spec_format_output(out: Output) -> Seq<u8> {
    match out {
        Output::ToInt(n) => dec_digits_of(n as nat),
        Output::ToHex(n) => seq![ZERO, UPPER_X] + hex_digits_of(n as nat),
    }
}

/// Appends the canonical decimal digits of `n`.
fn push_dec_digits(n: u64, v: &mut Vec<u8>)
    ensures
        final(v)@ == old(v)@ + dec_digits_of(n as nat),
    decreases n,
{
    if n < 10 {
        v.push(dec_digit_byte(n));
        assert(v@ =~= old(v)@ + dec_digits_of(n as nat));
    } else {
        push_dec_digits(n / 10, v);
        v.push(dec_digit_byte(n % 10));
        assert(v@ =~= old(v)@ + dec_digits_of(n as nat));
    }
}

/// Appends the canonical uppercase hex digits of `n`.
fn push_hex_digits(n: u64, v: &mut Vec<u8>)
    ensures
        final(v)@ == old(v)@ + hex_digits_of(n as nat),
    decreases n,
{
    if n < 16 {
        v.push(hex_digit_byte(n));
        assert(v@ =~= old(v)@ + hex_digits_of(n as nat));
    } else {
        push_hex_digits(n / 16, v);
        v.push(hex_digit_byte(n % 16));
        assert(v@ =~= old(v)@ + hex_digits_of(n as nat));
    }
}

/// The canonical base-10 text of `n`: no prefix, no leading zero.
pub fn dec_string(n: u64) -> (r: Vec<u8>)
    ensures
        r@ == dec_digits_of(n as nat),
{
    let mut v: Vec<u8> = Vec::new();
    push_dec_digits(n, &mut v);
    assert(v@ =~= dec_digits_of(n as nat));
    v
}

/// The canonical uppercase base-16 text of `n` behind the `0X` prefix.
pub fn hex_string(n: u64) -> (r: Vec<u8>)
    ensures
        r@ == seq![ZERO, UPPER_X] + hex_digits_of(n as nat),
{
    let mut v: Vec<u8> = Vec::new();
    v.push(ZERO);
    v.push(UPPER_X);
    assert(v@ =~= seq![ZERO, UPPER_X]);
    push_hex_digits(n, &mut v);
    v
}

/// Renders the parsed input to the line to print.
pub fn format_output(out: &Output) -> (r: Vec<u8>)
    ensures
        r@ == spec_format_output(*out),
{
    match out {
        Output::ToInt(n) => dec_string(*n),
        Output::ToHex(n) => hex_string(*n),
    }
}

} // verus!
