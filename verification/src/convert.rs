//! The whole conversion: parse the input literal, render the value in the
//! other base. The round-trip laws of the two directions live here too.

use vstd::prelude::*;

use crate::numeral::LOWER_X;
use crate::numeral::ZERO;
use crate::numeral::dec_digits_of;
use crate::numeral::hex_digits_of;
use crate::numeral::hex_value;
use crate::numeral::is_dec_digit;
use crate::numeral::is_hex_digit;
use crate::numeral::lemma_dec_digits_of_correct;
use crate::numeral::lemma_hex_digits_of_correct;
use crate::parse::Output;
use crate::parse::ParseError;
use crate::parse::is_dec_literal;
use crate::parse::is_hex_literal;
use crate::parse::parse;
use crate::parse::spec_parse;
use crate::render::format_output;
use crate::render::spec_format_output;

verus! {

/// The line the whole conversion prints for an input, or the error it is
/// rejected with.
pub open spec fn spec_convert(s: Seq<u8>) -> Result<Seq<u8>, ParseError> {
    match spec_parse(s) {
        Ok(out) => Ok(spec_format_output(out)),
        Err(e) => Err(e),
    }
}

/// Converts one input literal: a hex literal to its decimal text, a
/// decimal literal to its `0X`-prefixed uppercase hex text.
pub fn convert(s: &[u8]) -> (r: Result<Vec<u8>, ParseError>)
    ensures
        (match r {
            Ok(v) => spec_convert(s@) == Ok::<Seq<u8>, ParseError>(v@),
            Err(e) => spec_convert(s@) == Err::<Seq<u8>, ParseError>(e),
        }),
{
    match parse(s) {
        Ok(out) => Ok(format_output(&out)),
        Err(e) => Err(e),
    }
}

/// Decimal round trip: the decimal text rendered for any `u64` value `n`
/// is a decimal literal (and no hex literal), and parsing it yields `n`
/// again, tagged for the hex direction.
pub proof fn lemma_dec_round_trip(n: u64)
    ensures
        is_dec_literal(dec_digits_of(n as nat)),
        !is_hex_literal(dec_digits_of(n as nat)),
        spec_parse(dec_digits_of(n as nat)) == Ok::<Output, ParseError>(Output::ToHex(n)),
{
    lemma_dec_digits_of_correct(n as nat);
    let d = dec_digits_of(n as nat);
    if d.len() >= 3 {
        assert(is_dec_digit(d[1]));
        assert(d[1] != LOWER_X);
    }
}

/// Hex round trip: the hex digits rendered for any `u64` value `n`, put
/// behind the lowercase `0x` prefix the parser requires, form a hex
/// literal, and parsing it yields `n` again, tagged for the decimal
/// direction. (The renderer writes the prefix as `0X`, which the parser
/// does not accept; the digits themselves parse back unchanged.)
pub proof fn lemma_hex_round_trip(n: u64)
    ensures
        hex_value(hex_digits_of(n as nat)) == n,
        is_hex_literal(seq![ZERO, LOWER_X] + hex_digits_of(n as nat)),
        spec_parse(seq![ZERO, LOWER_X] + hex_digits_of(n as nat)) == Ok::<Output, ParseError>(
            Output::ToInt(n),
        ),
{
    lemma_hex_digits_of_correct(n as nat);
    let d = hex_digits_of(n as nat);
    let s = seq![ZERO, LOWER_X] + d;
    assert(s.len() == d.len() + 2);
    assert(s[0] == ZERO);
    assert(s[1] == LOWER_X);
    assert forall|i: int| 2 <= i < s.len() implies is_hex_digit(#[trigger] s[i]) by {
        assert(s[i] == d[i - 2]);
    }
    assert(is_hex_literal(s));
    assert(s.skip(2) =~= d);
}

} // verus!
