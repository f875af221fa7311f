use rand::rngs::StdRng;
use vstd::prelude::*;

use crate::config::{EvoError, SCALE};
use crate::random::draw_unit;

verus! {

/// Draws below this bound (0.3 of the unit range) move a candidate down.
pub const LEFT_BELOW: i64 = 300_000_000;

/// Draws above this bound (0.7 of the unit range) move a candidate up.
pub const RIGHT_ABOVE: i64 = 700_000_000;

/// The direction a mutation takes.
#[derive(Debug, Clone, Copy, PartialEq, Eq, Structural)]
pub enum Step {
    Left,
    Stay,
    Right,
}

/// The direction chosen by a unit draw `u` in `[0, SCALE)`.
pub open spec fn step_of(u: int) -> Step {
    if u < LEFT_BELOW {
        Step::Left
    } else if u > RIGHT_ABOVE {
        Step::Right
    } else {
        Step::Stay
    }
}

/// The candidate `x` moved by `step` in the direction chosen by the draw `u`.
pub open spec fn mutated(x: int, step: int, u: int) -> int {
    match step_of(u) {
        Step::Left => x - step,
        Step::Stay => x,
        Step::Right => x + step,
    }
}

pub open spec fn fits_i64(v: int) -> bool {
    i64::MIN <= v <= i64::MAX
}

/// The blend `w·x + (1 − w)·y` for the unit weight `w / SCALE`, rounded down.
pub open spec fn blend(x: int, y: int, w: int) -> int {
    (w * x + (SCALE - w) * y) / (SCALE as int)
}

pub open spec fn min2(a: int, b: int) -> int {
    if a <= b { a } else { b }
}

pub open spec fn max2(a: int, b: int) -> int {
    if a <= b { b } else { a }
}

/// The mutation decided by the unit draw `u`: down by `step` for a draw below
/// 0.3, up by `step` for a draw above 0.7, unchanged otherwise. Fails exactly
/// when the moved value leaves the range of `i64`.
pub fn mutate_by_draw(x: i64, step: i64, u: i64) -> (r: Result<i64, EvoError>)
    requires
        step > 0,
        0 <= u < SCALE,
    ensures
        r is Ok <==> fits_i64(mutated(x as int, step as int, u as int)),
        r matches Ok(v) ==> v == mutated(x as int, step as int, u as int),
        r matches Err(e) ==> e == EvoError::NumericOverflow,
{
    if u < LEFT_BELOW {
        if x < i64::MIN + step {
            Err(EvoError::NumericOverflow)
        } else {
            Ok(x - step)
        }
    } else if u > RIGHT_ABOVE {
        if x > i64::MAX - step {
            Err(EvoError::NumericOverflow)
        } else {
            Ok(x + step)
        }
    } else {
        Ok(x)
    }
}

/// Mutates `x` with a fresh unit draw from `rng`. Whatever the draw, the result
/// is one of `x - step`, `x`, `x + step`.
pub fn mutate(x: i64, step: i64, rng: &mut StdRng) -> (r: Result<i64, EvoError>)
    requires
        step > 0,
    ensures
        r matches Ok(v) ==> v == x - step || v == x || v == x + step,
        r matches Err(e) ==> e == EvoError::NumericOverflow,
        i64::MIN + step <= x <= i64::MAX - step ==> r is Ok,
{
    let u = draw_unit(rng);
    mutate_by_draw(x, step, u)
}

/// Every blend of `x` and `y` with a unit weight lies between them.
pub proof fn lemma_blend_convex(x: int, y: int, w: int)
    requires
        0 <= w < SCALE,
    ensures
        min2(x, y) <= blend(x, y, w) <= max2(x, y),
{
    let s = SCALE as int;
    let lo = min2(x, y);
    let hi = max2(x, y);
    let num = w * x + (s - w) * y;
    assert(s * lo <= num && num <= s * hi) by (nonlinear_arith)
        requires
            0 <= w < s,
            lo <= x <= hi,
            lo <= y <= hi,
            num == w * x + (s - w) * y,
    ;
    assert(lo <= num / s <= hi) by (nonlinear_arith)
        requires
            s > 0,
            s * lo <= num,
            num <= s * hi,
    ;
}

/// The blend of `x` and `y` at the unit weight `w`, rounded down.
pub fn crossover_by_weight(x: i64, y: i64, w: i64) -> (r: i64)
    requires
        0 <= w < SCALE,
    ensures
        r == blend(x as int, y as int, w as int),
        min2(x as int, y as int) <= r <= max2(x as int, y as int),
{
    proof {
        lemma_blend_convex(x as int, y as int, w as int);
    }
    let s: i128 = SCALE as i128;
    assert((w as int) * (x as int) <= 0x3fff_ffff_ffff_ffff_ffff_ffff_ffff_ffff
        && (w as int) * (x as int) >= -0x3fff_ffff_ffff_ffff_ffff_ffff_ffff_ffff) by (nonlinear_arith)
        requires 0 <= w < SCALE;
    assert(((SCALE - w) as int) * (y as int) <= 0x3fff_ffff_ffff_ffff_ffff_ffff_ffff_ffff
        && ((SCALE - w) as int) * (y as int) >= -0x3fff_ffff_ffff_ffff_ffff_ffff_ffff_ffff) by (nonlinear_arith)
        requires 0 <= w < SCALE;
    let num: i128 = (w as i128) * (x as i128) + ((s - w as i128) * (y as i128));
    let q: i128 = num / s;
    let fl: i128 = if q * s > num { q - 1 } else { q };
    fl as i64
}

/// Blends `x` and `y` with a fresh unit weight from `rng`. Whatever the weight,
/// the result lies on the segment between the parents.
pub fn crossover(x: i64, y: i64, rng: &mut StdRng) -> (r: i64)
    ensures
        min2(x as int, y as int) <= r <= max2(x as int, y as int),
{
    let w = draw_unit(rng);
    crossover_by_weight(x, y, w)
}

} // verus!
