//! Classifying and parsing the input literal.
//!
//! A hex literal is the exact lowercase prefix `0x` followed by one or more
//! hex digits of either case; it parses to the value to be printed as
//! decimal. Anything without that prefix must be one or more decimal digits
//! and parses to the value to be printed as hex. Everything else is
//! rejected, as is a literal whose value does not fit in a `u64`.

use vstd::prelude::*;

use crate::numeral::LOWER_X;
use crate::numeral::ZERO;
use crate::numeral::check_dec_digit;
use crate::numeral::check_hex_digit;
use crate::numeral::dec_digit_val;
use crate::numeral::dec_digit_value;
use crate::numeral::dec_value;
use crate::numeral::hex_digit_val;
use crate::numeral::hex_digit_value;
use crate::numeral::hex_value;
use crate::numeral::is_dec_digit;
use crate::numeral::is_hex_digit;
use crate::numeral::fold_hex_upper;
use crate::numeral::lemma_dec_value_take;
use crate::numeral::lemma_hex_value_fold_upper;
use crate::numeral::lemma_hex_value_take;
use crate::numeral::upper_hex_byte;

verus! {

/// The parsed input, tagged with the direction of the conversion still to
/// be done: a hex literal becomes `ToInt` (print as decimal), a decimal
/// literal becomes `ToHex` (print as hex).
#[derive(Clone, Copy, Debug, PartialEq, Eq, Structural)]
pub enum Output {
    ToHex(u64),
    ToInt(u64),
}

/// Why an input was rejected.
#[derive(Clone, Copy, Debug, PartialEq, Eq, Structural)]
pub enum ParseError {
    /// The input is neither a hex literal nor a decimal literal.
    Unrecognized,
    /// The input has a valid form but its value does not fit in a `u64`.
    Overflow,
}

/// The exact lowercase prefix `0x` followed by one or more hex digits.
pub open spec fn is_hex_literal(s: Seq<u8>) -> bool {
    &&& s.len() >= 3
    &&& s[0] == ZERO
    &&& s[1] == LOWER_X
    &&& forall|i: int| 2 <= i < s.len() ==> is_hex_digit(#[trigger] s[i])
}

/// One or more decimal digits and nothing else.
pub open spec fn is_dec_literal(s: Seq<u8>) -> bool {
    &&& s.len() >= 1
    &&& forall|i: int| 0 <= i < s.len() ==> is_dec_digit(#[trigger] s[i])
}

/// What the hex path returns: the value of the digits after the prefix, or
/// the error that says why there is none.
pub open spec fn spec_hex_to_dec(s: Seq<u8>) -> Result<Output, ParseError> {
    if is_hex_literal(s) {
        if hex_value(s.skip(2)) <= u64::MAX {
            Ok(Output::ToInt(hex_value(s.skip(2)) as u64))
        } else {
            Err(ParseError::Overflow)
        }
    } else {
        Err(ParseError::Unrecognized)
    }
}

/// What the decimal path returns: the value of the digits, or the error
/// that says why there is none.
pub open spec fn spec_dec_to_hex(s: Seq<u8>) -> Result<Output, ParseError> {
    if is_dec_literal(s) {
        if dec_value(s) <= u64::MAX {
            Ok(Output::ToHex(dec_value(s) as u64))
        } else {
            Err(ParseError::Overflow)
        }
    } else {
        Err(ParseError::Unrecognized)
    }
}

/// What parsing returns: the hex path where the input has the `0x` prefix
/// shape, the decimal path otherwise.
pub open spec fn spec_parse(s: Seq<u8>) -> Result<Output, ParseError> {
    if is_hex_literal(s) {
        spec_hex_to_dec(s)
    } else {
        spec_dec_to_hex(s)
    }
}

/// Parses a hex literal `0x...` to the value to be printed as decimal.
pub fn hex_to_dec(s: &[u8]) -> (r: Result<Output, ParseError>)
    ensures
        r == spec_hex_to_dec(s@),
{
    if s.len() < 3 || s[0] != ZERO || s[1] != LOWER_X {
        return Err(ParseError::Unrecognized);
    }
    let mut i: usize = 2;
    while i < s.len()
        invariant
            2 <= i <= s@.len(),
            s@.len() >= 3,
            forall|j: int| 2 <= j < i ==> is_hex_digit(#[trigger] s@[j]),
        decreases s@.len() - i,
    {
        if !check_hex_digit(s[i]) {
            assert(!is_hex_literal(s@));
            return Err(ParseError::Unrecognized);
        }
        i += 1;
    }
    assert(is_hex_literal(s@));
    let mut acc: u64 = 0;
    let mut i: usize = 2;
    while i < s.len()
        invariant
            2 <= i <= s@.len(),
            s@.len() >= 3,
            is_hex_literal(s@),
            acc == hex_value(s@.skip(2).take(i - 2)),
        decreases s@.len() - i,
    {
        let ghost digits = s@.skip(2);
        let d = hex_digit_value(s[i]);
        assert(d == hex_digit_val(digits[i - 2]));
        assert(digits.take(i - 1).drop_last() =~= digits.take(i - 2));
        assert(digits.take(i - 1).last() == digits[i - 2]);
        assert(hex_value(digits.take(i - 1)) == acc * 16 + d);
        if acc >= 0x1000_0000_0000_0000 {
            proof {
                lemma_hex_value_take(digits, i - 1);
            }
            assert(hex_value(digits) > u64::MAX);
            return Err(ParseError::Overflow);
        }
        acc = acc * 16 + d;
        i += 1;
    }
    assert(s@.skip(2).take(s@.len() - 2) =~= s@.skip(2));
    Ok(Output::ToInt(acc))
}

/// Parses a decimal literal to the value to be printed as hex.
pub fn dec_to_hex(s: &[u8]) -> (r: Result<Output, ParseError>)
    ensures
        r == spec_dec_to_hex(s@),
{
    if s.len() == 0 {
        return Err(ParseError::Unrecognized);
    }
    let mut i: usize = 0;
    while i < s.len()
        invariant
            0 <= i <= s@.len(),
            s@.len() >= 1,
            forall|j: int| 0 <= j < i ==> is_dec_digit(#[trigger] s@[j]),
        decreases s@.len() - i,
    {
        if !check_dec_digit(s[i]) {
            assert(!is_dec_literal(s@));
            return Err(ParseError::Unrecognized);
        }
        i += 1;
    }
    assert(is_dec_literal(s@));
    let mut acc: u64 = 0;
    let mut i: usize = 0;
    while i < s.len()
        invariant
            0 <= i <= s@.len(),
            is_dec_literal(s@),
            acc == dec_value(s@.take(i as int)),
        decreases s@.len() - i,
    {
        let d = dec_digit_value(s[i]);
        assert(d == dec_digit_val(s@[i as int]));
        assert(s@.take(i + 1).drop_last() =~= s@.take(i as int));
        assert(s@.take(i + 1).last() == s@[i as int]);
        assert(dec_value(s@.take(i + 1)) == acc * 10 + d);
        if acc > 1844674407370955161 || (acc == 1844674407370955161 && d > 5) {
            proof {
                lemma_dec_value_take(s@, i + 1);
            }
            assert(dec_value(s@) > u64::MAX);
            return Err(ParseError::Overflow);
        }
        acc = acc * 10 + d;
        i += 1;
    }
    assert(s@.take(s@.len() as int) =~= s@);
    Ok(Output::ToHex(acc))
}

/// Parses the input: the hex path where the `0x` prefix is present, the
/// decimal path otherwise.
pub fn parse(s: &[u8]) -> (r: Result<Output, ParseError>)
    ensures
        r == spec_parse(s@),
{
    if s.len() >= 2 && s[0] == ZERO && s[1] == LOWER_X {
        let r = hex_to_dec(s);
        proof {
            if !is_hex_literal(s@) {
                assert(!is_dec_digit(s@[1]));
                assert(!is_dec_literal(s@));
            }
        }
        r
    } else {
        assert(!is_hex_literal(s@));
        dec_to_hex(s)
    }
}

/// Hex parsing is case-insensitive in the digits: raising every lowercase
/// hex digit of the input to uppercase never changes what parsing returns.
pub proof fn lemma_parse_case_insensitive(s: Seq<u8>)
    ensures
        spec_parse(fold_hex_upper(s)) == spec_parse(s),
{
    let t = fold_hex_upper(s);
    assert(t.len() == s.len());
    assert(forall|i: int| 0 <= i < s.len() ==> #[trigger] t[i] == upper_hex_byte(s[i]));
    assert(is_hex_literal(t) == is_hex_literal(s)) by {
        if is_hex_literal(s) {
            assert(t[0] == ZERO);
            assert(t[1] == LOWER_X);
            assert(forall|i: int| 2 <= i < t.len() ==> is_hex_digit(#[trigger] t[i]));
        }
        if is_hex_literal(t) {
            assert(t[0] == upper_hex_byte(s[0]));
            assert(t[1] == upper_hex_byte(s[1]));
            assert(s[0] == ZERO);
            assert(s[1] == LOWER_X);
            assert forall|i: int| 2 <= i < s.len() implies is_hex_digit(#[trigger] s[i]) by {
                assert(t[i] == upper_hex_byte(s[i]));
                assert(is_hex_digit(t[i]));
            }
        }
    }
    assert(is_dec_literal(t) == is_dec_literal(s)) by {
        if is_dec_literal(s) {
            assert(forall|i: int| 0 <= i < t.len() ==> is_dec_digit(#[trigger] t[i]));
        }
        if is_dec_literal(t) {
            assert forall|i: int| 0 <= i < s.len() implies is_dec_digit(#[trigger] s[i]) by {
                assert(t[i] == upper_hex_byte(s[i]));
                assert(is_dec_digit(t[i]));
            }
        }
    }
    if is_hex_literal(s) {
        assert(t.skip(2) =~= fold_hex_upper(s.skip(2)));
        lemma_hex_value_fold_upper(s.skip(2));
    } else if is_dec_literal(s) {
        assert(t =~= s);
    }
}

} // verus!
