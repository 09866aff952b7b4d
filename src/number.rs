//! Numbers are IEEE-754 binary64 values, carried as their 64-bit patterns.
//!
//! Comparison, equality and negation are decided here from the bit pattern.
//! Parsing a literal, the four arithmetic operations and formatting are
//! computed by the embedding host through [`NumberHost`].
use vstd::prelude::*;

verus! {

pub const SIGN_BIT: u64 = 0x8000_0000_0000_0000;

pub const MAGNITUDE_MASK: u64 = 0x7fff_ffff_ffff_ffff;

pub const EXPONENT_MASK: u64 = 0x7ff0_0000_0000_0000;

pub const FRACTION_MASK: u64 = 0x000f_ffff_ffff_ffff;

/// The bit pattern encodes a NaN: all exponent bits set, a non-zero fraction.
pub open spec fn is_nan(bits: u64) -> bool {
    (bits & EXPONENT_MASK) == EXPONENT_MASK && (bits & FRACTION_MASK) != 0
}

/// The position of a non-NaN value on the number line, as an integer that
/// orders patterns the way IEEE-754 orders their values (both zeros map to 0).
pub open spec fn order_key(bits: u64) -> int {
    if (bits & SIGN_BIT) == 0 {
        (bits & MAGNITUDE_MASK) as int
    } else {
        -((bits & MAGNITUDE_MASK) as int)
    }
}

/// IEEE-754 equality: NaN equals nothing, `+0 == -0`.
pub open spec fn number_eq(a: u64, b: u64) -> bool {
    !is_nan(a) && !is_nan(b) && order_key(a) == order_key(b)
}

/// IEEE-754 `a < b`: false whenever either side is NaN.
pub open spec fn number_lt(a: u64, b: u64) -> bool {
    !is_nan(a) && !is_nan(b) && order_key(a) < order_key(b)
}

/// IEEE-754 negation flips the sign bit, NaN included.
pub open spec fn number_neg(a: u64) -> u64 {
    a ^ SIGN_BIT
}

/// Tests whether `bits` is a NaN pattern.
pub fn nan(bits: u64) -> (r: bool)
    ensures
        r == is_nan(bits),
{
    (bits & EXPONENT_MASK) == EXPONENT_MASK && (bits & FRACTION_MASK) != 0
}

fn key_of(bits: u64) -> (r: i128)
    ensures
        r as int == order_key(bits),
{
    let m = bits & MAGNITUDE_MASK;
    if (bits & SIGN_BIT) == 0 {
        m as i128
    } else {
        -(m as i128)
    }
}

/// `a == b` on numbers.
pub fn number_equal(a: u64, b: u64) -> (r: bool)
    ensures
        r == number_eq(a, b),
{
    !nan(a) && !nan(b) && key_of(a) == key_of(b)
}

/// `a < b` on numbers.
pub fn number_less(a: u64, b: u64) -> (r: bool)
    ensures
        r == number_lt(a, b),
{
    !nan(a) && !nan(b) && key_of(a) < key_of(b)
}

/// `a > b` on numbers, which is `b < a`.
pub fn number_greater(a: u64, b: u64) -> (r: bool)
    ensures
        r == number_lt(b, a),
{
    number_less(b, a)
}

/// `-a` on numbers.
pub fn number_negate(a: u64) -> (r: u64)
    ensures
        r == number_neg(a),
{
    a ^ SIGN_BIT
}

/// The arithmetic that the host computes on numbers.
#[derive(Clone, Copy, Debug, PartialEq, Eq, Structural)]
pub enum ArithOp {
    Add,
    Subtract,
    Multiply,
    Divide,
}

/// The floating-point unit of the embedding program: it parses number
/// literals, performs binary64 arithmetic and renders numbers as text.
/// Nothing is assumed of its answers: the compiler and the machine are
/// correct for whatever bit patterns it returns.
pub trait NumberHost {
    /// The bit pattern of the binary64 value nearest to a literal such as `12.5`.
    fn parse_number(&self, lexeme: &str) -> u64;

    /// The bit pattern of `a op b`.
    fn arithmetic(&self, op: ArithOp, a: u64, b: u64) -> u64;

    /// The text that `print` shows for a number.
    fn format_number(&self, bits: u64) -> String;
}

} // verus!
