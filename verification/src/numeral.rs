//! The numeric model: what a digit byte is worth, what a digit string is
//! worth under a radix, and which digit string a value renders to.

use vstd::prelude::*;

verus! {

/// ASCII codes of the bytes the literals are made of.
pub const ZERO: u8 = 48;

pub const NINE: u8 = 57;

pub const UPPER_A: u8 = 65;

pub const UPPER_F: u8 = 70;

pub const UPPER_X: u8 = 88;

pub const LOWER_A: u8 = 97;

pub const LOWER_F: u8 = 102;

pub const LOWER_X: u8 = 120;

/// True of the ASCII bytes `0`-`9`.
pub open spec fn is_dec_digit(b: u8) -> bool {
    ZERO <= b && b <= NINE
}

/// True of the ASCII bytes `0`-`9`, `A`-`F` and `a`-`f`.
pub open spec fn is_hex_digit(b: u8) -> bool {
    is_dec_digit(b) || (UPPER_A <= b && b <= UPPER_F) || (LOWER_A <= b && b <= LOWER_F)
}

/// The numeric value of a decimal digit byte (0 for a non-digit).
pub open spec fn dec_digit_val(b: u8) -> nat {
    if is_dec_digit(b) {
        (b - ZERO) as nat
    } else {
        0
    }
}

/// The numeric value of a hex digit byte of either case (0 for a non-digit).
pub open spec fn hex_digit_val(b: u8) -> nat {
    if is_dec_digit(b) {
        (b - ZERO) as nat
    } else if UPPER_A <= b && b <= UPPER_F {
        (b - UPPER_A + 10) as nat
    } else if LOWER_A <= b && b <= LOWER_F {
        (b - LOWER_A + 10) as nat
    } else {
        0
    }
}

/// The value of a digit string read in base 10, most significant digit first.
pub open spec fn dec_value(s: Seq<u8>) -> nat
    decreases s.len(),
{
    if s.len() == 0 {
        0
    } else {
        dec_value(s.drop_last()) * 10 + dec_digit_val(s.last())
    }
}

/// The value of a digit string read in base 16, most significant digit first.
pub open spec fn hex_value(s: Seq<u8>) -> nat
    decreases s.len(),
{
    if s.len() == 0 {
        0
    } else {
        hex_value(s.drop_last()) * 16 + hex_digit_val(s.last())
    }
}

/// The decimal digit byte for a value below 10.
pub open spec fn dec_digit_byte_of(d: nat) -> u8 {
    (ZERO + d) as u8
}

/// The uppercase hex digit byte for a value below 16.
pub open spec fn hex_digit_byte_of(d: nat) -> u8 {
    if d < 10 {
        (ZERO + d) as u8
    } else {
        (UPPER_A + (d - 10)) as u8
    }
}

/// The canonical base-10 rendering of `n`: no leading zero, `0` itself as
/// the single byte `0`.
pub open spec fn dec_digits_of(n: nat) -> Seq<u8>
    decreases n,
{
    if n < 10 {
        seq![dec_digit_byte_of(n)]
    } else {
        dec_digits_of(n / 10).push(dec_digit_byte_of(n % 10))
    }
}

/// The canonical uppercase base-16 rendering of `n`, without a prefix.
pub open spec fn hex_digits_of(n: nat) -> Seq<u8>
    decreases n,
{
    if n < 16 {
        seq![hex_digit_byte_of(n)]
    } else {
        hex_digits_of(n / 16).push(hex_digit_byte_of(n % 16))
    }
}

/// Decides `is_dec_digit`.
pub fn check_dec_digit(b: u8) -> (r: bool)
    ensures
        r == is_dec_digit(b),
{
    ZERO <= b && b <= NINE
}

/// Decides `is_hex_digit`.
pub fn check_hex_digit(b: u8) -> (r: bool)
    ensures
        r == is_hex_digit(b),
{
    (ZERO <= b && b <= NINE) || (UPPER_A <= b && b <= UPPER_F) || (LOWER_A <= b && b <= LOWER_F)
}

/// The numeric value of a decimal digit byte.
pub fn dec_digit_value(b: u8) -> (r: u64)
    requires
        is_dec_digit(b),
    ensures
        r == dec_digit_val(b),
        r < 10,
{
    (b - ZERO) as u64
}

/// The numeric value of a hex digit byte of either case.
pub fn hex_digit_value(b: u8) -> (r: u64)
    requires
        is_hex_digit(b),
    ensures
        r == hex_digit_val(b),
        r < 16,
{
    if b <= NINE {
        (b - ZERO) as u64
    } else if b <= UPPER_F {
        (b - UPPER_A) as u64 + 10
    } else {
        (b - LOWER_A) as u64 + 10
    }
}

/// The decimal digit byte for a value below 10.
pub fn dec_digit_byte(d: u64) -> (r: u8)
    requires
        d < 10,
    ensures
        r == dec_digit_byte_of(d as nat),
{
    ZERO + (d as u8)
}

/// The uppercase hex digit byte for a value below 16.
pub fn hex_digit_byte(d: u64) -> (r: u8)
    requires
        d < 16,
    ensures
        r == hex_digit_byte_of(d as nat),
{
    if d < 10 {
        ZERO + (d as u8)
    } else {
        UPPER_A + ((d as u8) - 10)
    }
}

/// A digit string is worth at least as much as any of its leading parts:
/// appending digits never lowers the base-10 value.
pub proof fn lemma_dec_value_take(s: Seq<u8>, j: int)
    requires
        0 <= j <= s.len(),
    ensures
        dec_value(s) >= dec_value(s.take(j)),
    decreases s.len(),
{
    if j == s.len() {
        assert(s.take(j) =~= s);
    } else {
        lemma_dec_value_take(s.drop_last(), j);
        assert(s.drop_last().take(j) =~= s.take(j));
    }
}

/// Appending digits never lowers the base-16 value.
pub proof fn lemma_hex_value_take(s: Seq<u8>, j: int)
    requires
        0 <= j <= s.len(),
    ensures
        hex_value(s) >= hex_value(s.take(j)),
    decreases s.len(),
{
    if j == s.len() {
        assert(s.take(j) =~= s);
    } else {
        lemma_hex_value_take(s.drop_last(), j);
        assert(s.drop_last().take(j) =~= s.take(j));
    }
}

/// The canonical base-10 rendering of `n` is a non-empty decimal digit
/// string that reads back as `n`.
pub proof fn lemma_dec_digits_of_correct(n: nat)
    ensures
        dec_digits_of(n).len() >= 1,
        forall|i: int| 0 <= i < dec_digits_of(n).len() ==> is_dec_digit(#[trigger] dec_digits_of(n)[i]),
        dec_value(dec_digits_of(n)) == n,
    decreases n,
{
    if n < 10 {
        let d = dec_digits_of(n);
        assert(d.drop_last() =~= Seq::<u8>::empty());
        assert(dec_value(Seq::<u8>::empty()) == 0);
        assert(d.last() == dec_digit_byte_of(n));
        assert(dec_digit_val(dec_digit_byte_of(n)) == n);
    } else {
        lemma_dec_digits_of_correct(n / 10);
        let prefix = dec_digits_of(n / 10);
        let b = dec_digit_byte_of(n % 10);
        let d = dec_digits_of(n);
        assert(d == prefix.push(b));
        assert(d.drop_last() =~= prefix);
        assert(d.last() == b);
        assert(dec_digit_val(b) == n % 10);
        assert(dec_value(d) == dec_value(prefix) * 10 + dec_digit_val(b));
        assert(n / 10 * 10 + n % 10 == n);
    }
}

/// The canonical base-16 rendering of `n` is a non-empty hex digit string
/// that reads back as `n`.
pub proof fn lemma_hex_digits_of_correct(n: nat)
    ensures
        hex_digits_of(n).len() >= 1,
        forall|i: int| 0 <= i < hex_digits_of(n).len() ==> is_hex_digit(#[trigger] hex_digits_of(n)[i]),
        hex_value(hex_digits_of(n)) == n,
    decreases n,
{
    if n < 16 {
        let d = hex_digits_of(n);
        assert(d.drop_last() =~= Seq::<u8>::empty());
        assert(hex_value(Seq::<u8>::empty()) == 0);
        assert(d.last() == hex_digit_byte_of(n));
        assert(hex_digit_val(hex_digit_byte_of(n)) == n);
    } else {
        lemma_hex_digits_of_correct(n / 16);
        let prefix = hex_digits_of(n / 16);
        let b = hex_digit_byte_of(n % 16);
        let d = hex_digits_of(n);
        assert(d == prefix.push(b));
        assert(d.drop_last() =~= prefix);
        assert(d.last() == b);
        assert(hex_digit_val(b) == n % 16);
        assert(hex_value(d) == hex_value(prefix) * 16 + hex_digit_val(b));
        assert(n / 16 * 16 + n % 16 == n);
    }
}

/// The same byte with a lowercase hex digit raised to uppercase; any other
/// byte is left as it is.
pub open spec fn upper_hex_byte(b: u8) -> u8 {
    if LOWER_A <= b && b <= LOWER_F {
        (b - 32) as u8
    } else {
        b
    }
}

/// The same byte string with lowercase hex digits raised to uppercase.
pub open spec fn fold_hex_upper(s: Seq<u8>) -> Seq<u8> {
    s.map_values(|b: u8| upper_hex_byte(b))
}

/// Raising case never changes what a hex digit string is worth.
pub proof fn lemma_hex_value_fold_upper(s: Seq<u8>)
    ensures
        fold_hex_upper(s).len() == s.len(),
        hex_value(fold_hex_upper(s)) == hex_value(s),
    decreases s.len(),
{
    if s.len() == 0 {
        assert(hex_value(fold_hex_upper(s)) == 0);
    } else {
        lemma_hex_value_fold_upper(s.drop_last());
        assert(fold_hex_upper(s).drop_last() =~= fold_hex_upper(s.drop_last()));
        assert(fold_hex_upper(s).last() == upper_hex_byte(s.last()));
        assert(hex_digit_val(upper_hex_byte(s.last())) == hex_digit_val(s.last()));
    }
}

} // verus!
