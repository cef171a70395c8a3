//! Floating-point numbers held as their bits, and what it is for two of them to be
//! equal.
//!
//! The highest bit is the sign, and the others are the magnitude. A number that is
//! not a number has a magnitude above that of infinity: it equals nothing, not even
//! itself. The two zeros differ in the sign and are equal.
use vstd::prelude::*;

verus! {

/// The bit of the sign of a double-precision number.
pub const DOUBLE_SIGN: u64 = 0x8000_0000_0000_0000;

/// The bits of infinity as a double-precision number.
pub const DOUBLE_INFINITY: u64 = 0x7ff0_0000_0000_0000;

/// The bit of the sign of a single-precision number.
pub const SINGLE_SIGN: u32 = 0x8000_0000;

/// The bits of infinity as a single-precision number.
pub const SINGLE_INFINITY: u32 = 0x7f80_0000;

/// Whether the double-precision numbers with these bits are equal.
pub open spec fn doubles_equal(a: u64, b: u64) -> bool {
    &&& a % DOUBLE_SIGN <= DOUBLE_INFINITY
    &&& b % DOUBLE_SIGN <= DOUBLE_INFINITY
    &&& a == b || (a % DOUBLE_SIGN == 0 && b % DOUBLE_SIGN == 0)
}

/// Whether the single-precision numbers with these bits are equal.
pub open spec fn singles_equal(a: u32, b: u32) -> bool {
    &&& a % SINGLE_SIGN <= SINGLE_INFINITY
    &&& b % SINGLE_SIGN <= SINGLE_INFINITY
    &&& a == b || (a % SINGLE_SIGN == 0 && b % SINGLE_SIGN == 0)
}

/// Whether the double-precision numbers with these bits are equal.
pub fn same_double(a: u64, b: u64) -> (r: bool)
    ensures
        r == doubles_equal(a, b),
{
    a % DOUBLE_SIGN <= DOUBLE_INFINITY && b % DOUBLE_SIGN <= DOUBLE_INFINITY && (a == b || (a
        % DOUBLE_SIGN == 0 && b % DOUBLE_SIGN == 0))
}

/// Whether the single-precision numbers with these bits are equal.
pub fn same_single(a: u32, b: u32) -> (r: bool)
    ensures
        r == singles_equal(a, b),
{
    a % SINGLE_SIGN <= SINGLE_INFINITY && b % SINGLE_SIGN <= SINGLE_INFINITY && (a == b || (a
        % SINGLE_SIGN == 0 && b % SINGLE_SIGN == 0))
}

/// Numbers that equal one another equal the same numbers, and each equals itself
/// save where it is not a number.
pub proof fn law_equality_of_numbers(a: u64, b: u64, c: u64)
    ensures
        doubles_equal(a, a) <==> a % DOUBLE_SIGN <= DOUBLE_INFINITY,
        doubles_equal(a, b) <==> doubles_equal(b, a),
        doubles_equal(a, b) && doubles_equal(b, c) ==> doubles_equal(a, c),
        doubles_equal(0, DOUBLE_SIGN),
{
}

/// Equality of single-precision numbers is symmetric and transitive, holds of every
/// number and itself but of nothing that is not a number, and takes the two zeros for
/// one.
pub proof fn law_equality_of_single_numbers(a: u32, b: u32, c: u32)
    ensures
        singles_equal(a, a) <==> a % SINGLE_SIGN <= SINGLE_INFINITY,
        singles_equal(a, b) <==> singles_equal(b, a),
        singles_equal(a, b) && singles_equal(b, c) ==> singles_equal(a, c),
        singles_equal(a, b) && a % SINGLE_SIGN != 0 ==> a == b,
        singles_equal(0, SINGLE_SIGN),
{
}

/// Two double-precision numbers that are not zero are equal only where their bits are.
pub proof fn law_equal_numbers_have_equal_bits(a: u64, b: u64)
    ensures
        doubles_equal(a, b) && a % DOUBLE_SIGN != 0 ==> a == b,
        a == b && a % DOUBLE_SIGN <= DOUBLE_INFINITY ==> doubles_equal(a, b),
{
}

} // verus!
