use rand::rngs::StdRng;
use rand::Rng;
use vstd::prelude::*;

use crate::config::SCALE;

verus! {

/// rand's seedable standard generator, carried through the library unopened.
#[verifier::external_type_specification]
#[verifier::external_body]
pub struct ExStdRng(StdRng);

/// Relies on rand's `Rng::gen_range` over the half-open range `0..n`: the value
/// drawn lies in that range, and the call panics only when the range is empty.
#[verifier::external_body]
pub(crate) fn draw_below(rng: &mut StdRng, n: u128) -> (r: u128)
    requires
        n > 0,
    ensures
        r < n,
{
    rng.gen_range(0..n)
}

/// A uniform draw from `[0, SCALE)`: the fixed-point image of a draw from `[0, 1)`.
pub(crate) fn draw_unit(rng: &mut StdRng) -> (r: i64)
    ensures
        0 <= r < SCALE,
{
    let d = draw_below(rng, SCALE as u128);
    d as i64
}

} // verus!
