//! Conversion of a numeric literal between its hexadecimal and decimal
//! text forms.
//!
//! A hex literal (`0x` followed by hex digits, either case) is parsed and
//! rendered as decimal text; a decimal literal (digits only) is parsed and
//! rendered as uppercase hex text with a `0X` prefix. Values are held in a
//! `u64`; a literal whose value does not fit is rejected with an overflow
//! error rather than wrapped or saturated.

pub mod numeral;
pub mod parse;
pub mod render;
pub mod convert;
