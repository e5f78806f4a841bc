use vstd::prelude::*;

verus! {

#[verifier::external_type_specification]
#[verifier::external_body]
pub struct ExRandomNumberGenerator(rltk::RandomNumberGenerator);

/// Draws with `rltk::RandomNumberGenerator::range(0, bound)`, which samples
/// the half-open range from zero to `bound` and panics where that range is
/// empty. Nothing is claimed of the draw but that it lies in the range.
#[verifier::external_body]
pub(crate) fn random_below(rng: &mut rltk::RandomNumberGenerator, bound: usize) -> (draw: usize)
    requires
        0 < bound,
    ensures
        draw < bound,
{
    rng.range(0, bound)
}

/// Whether `n` dice with `die_type` sides each can be rolled: there is a
/// side to show, and the largest sum fits.
pub open spec fn dice_fit(n: int, die_type: int) -> bool {
    0 <= n && 1 <= die_type < i32::MAX && n * die_type <= i32::MAX
}

/// Rolls with `rltk::RandomNumberGenerator::roll_dice(n, die_type)`, which
/// adds up `n` draws from one up to and including `die_type`. Nothing is
/// claimed of the sum but the bounds that follow from that.
#[verifier::external_body]
pub(crate) fn roll_dice(rng: &mut rltk::RandomNumberGenerator, n: i32, die_type: i32) -> (sum: i32)
    requires
        dice_fit(n as int, die_type as int),
    ensures
        n <= sum <= n * die_type,
{
    rng.roll_dice(n, die_type)
}

} // verus!
