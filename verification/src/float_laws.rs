//! Which bit patterns are in which range, and how they are ordered.

use vstd::prelude::*;

use crate::float::{Double, Single};

verus! {

/// The right ascensions are the numbers from 0 up to, but not including, 360, and
/// the negative zero.
pub proof fn right_ascensions_are_below_360(d: Double)
    ensures
        d.right_ascension() <==> d.bits < 0x4076_8000_0000_0000 || d.bits == 0x8000_0000_0000_0000,
{
}

/// The declinations are the numbers from -90 to 90, both included.
pub proof fn declinations_are_within_90(d: Double)
    ensures
        d.declination() <==> d.bits <= 0x4056_8000_0000_0000 || 0x8000_0000_0000_0000 <= d.bits
            <= 0xc056_8000_0000_0000,
{
}

/// The separations are the finite numbers that are not negative, and the negative
/// zero.
pub proof fn separations_are_not_negative(d: Double)
    ensures
        d.separation() <==> d.bits < 0x7ff0_0000_0000_0000 || d.bits == 0x8000_0000_0000_0000,
{
}

/// The finite numbers are those whose exponent is not all ones, of either sign;
/// the infinities are numbers too, and nothing else is.
pub proof fn finite_numbers_have_an_exponent(d: Double)
    ensures
        d.finite() <==> d.bits < 0x7ff0_0000_0000_0000 || 0x8000_0000_0000_0000 <= d.bits
            < 0xfff0_0000_0000_0000,
        d.is_number() <==> d.finite() || d.bits == 0x7ff0_0000_0000_0000 || d.bits
            == 0xfff0_0000_0000_0000,
{
}

/// Numbers of one sign are ordered by their patterns, upwards where they are
/// positive and downwards where they are negative; a positive number is above
/// every negative one, and the two zeros are alike.
pub proof fn doubles_are_ordered(a: Double, b: Double)
    requires
        a.is_number(),
        b.is_number(),
    ensures
        a.bits < 0x8000_0000_0000_0000 && b.bits < 0x8000_0000_0000_0000 ==> (a.rank() < b.rank()
            <==> a.bits < b.bits),
        a.bits >= 0x8000_0000_0000_0000 && b.bits >= 0x8000_0000_0000_0000 ==> (a.rank()
            < b.rank() <==> a.bits > b.bits),
        a.bits > 0x8000_0000_0000_0000 && b.bits < 0x8000_0000_0000_0000 ==> a.rank() < b.rank(),
        a.bits == 0x8000_0000_0000_0000 && b.bits == 0 ==> a.rank() == b.rank(),
{
}

/// Scores of one sign are ordered by their patterns, upwards where they are
/// positive and downwards where they are negative; a positive score is above
/// every negative one, and the two zeros are alike.
pub proof fn scores_are_ordered(a: Single, b: Single)
    requires
        a.is_number(),
        b.is_number(),
    ensures
        a.bits < 0x8000_0000 && b.bits < 0x8000_0000 ==> (b.above(a) <==> a.bits < b.bits),
        a.bits >= 0x8000_0000 && b.bits >= 0x8000_0000 ==> (b.above(a) <==> a.bits > b.bits),
        a.bits > 0x8000_0000 && b.bits < 0x8000_0000 ==> b.above(a) && !a.above(b),
        a.bits == 0x8000_0000 && b.bits == 0 ==> !b.above(a) && !a.above(b),
        a.at_least(b) <==> !b.above(a),
{
}

/// What is no number is neither above nor below nor level with anything.
pub proof fn scores_that_are_no_numbers_match_nothing(a: Single, b: Single)
    requires
        0x7f80_0000 < a.bits < 0x8000_0000 || a.bits > 0xff80_0000,
    ensures
        !a.is_number(),
        !a.above(b),
        !b.above(a),
        !a.at_least(b),
        !b.at_least(a),
{
}

/// The score is a number unless its exponent is all ones and its fraction is not
/// zero.
pub proof fn scores_are_numbers(a: Single)
    ensures
        a.is_number() <==> a.bits <= 0x7f80_0000 || 0x8000_0000 <= a.bits <= 0xff80_0000,
{
}

/// The total order goes with the order of numbers, and sets the negative zero
/// below the positive one; no two patterns are level.
pub proof fn the_total_order_refines_the_other(a: Single, b: Single)
    ensures
        a.above(b) ==> a.total_rank() > b.total_rank(),
        a.total_rank() == b.total_rank() <==> a.bits == b.bits,
        (Single { bits: 0x8000_0000 }).total_rank() < (Single { bits: 0 }).total_rank(),
{
}

} // verus!
