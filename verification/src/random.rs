//! Drawing numbers: the random number generator and what is known of a
//! draw.

use vstd::prelude::*;
use rltk::RandomNumberGenerator;

verus! {

/// The random number generator of `bracket-random`, which `rltk` hands on.
#[verifier::external_type_specification]
#[verifier::external_body]
pub struct ExRandomNumberGenerator(RandomNumberGenerator);

/// `RandomNumberGenerator::range` on `i32`: a number drawn from `min..max`.
/// The draw is at least `min` and below `max`; nothing more is claimed of
/// it. An empty range makes the generator panic and is left out.
#[verifier::external_body]
pub(crate) fn roll_range(rng: &mut RandomNumberGenerator, min: i32, max: i32) -> (n: i32)
    requires
        min < max,
    ensures
        min <= n < max,
{
    rng.range(min, max)
}

/// `RandomNumberGenerator::roll_dice`: the sum of `n` dice with the faces
/// `1..=die_type`. The sum is at least `n` and at most `n * die_type`;
/// nothing more is claimed of it. A die without a face makes the generator
/// panic, and a sum beyond `i32` overflows: both are left out.
#[verifier::external_body]
pub(crate) fn roll_dice(rng: &mut RandomNumberGenerator, n: i32, die_type: i32) -> (total: i32)
    requires
        0 <= n,
        1 <= die_type < i32::MAX,
        n * die_type <= i32::MAX,
    ensures
        n <= total <= n * die_type,
{
    rng.roll_dice(n, die_type)
}

} // verus!
