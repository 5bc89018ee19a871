//! Fixed-point levels: scores and affect values in the closed range from
//! zero to one, held as integers in thousandths.
use vstd::prelude::*;

verus! {

/// The level that stands for 1.0; a level of 300 stands for 0.3.
pub const LEVEL_ONE: u32 = 1000;

/// `x` is a valid level.
pub open spec fn is_level(x: int) -> bool {
    0 <= x <= LEVEL_ONE as int
}

/// `x` moved into the level range.
pub open spec fn clamp_spec(x: int) -> int {
    if x < 0 {
        0
    } else if x > LEVEL_ONE as int {
        LEVEL_ONE as int
    } else {
        x
    }
}

/// The level reached from `start` by adding each delta in turn, clamping
/// after every step.
pub open spec fn fold_deltas(start: int, deltas: Seq<int>) -> int
    decreases deltas.len(),
{
    if deltas.len() == 0 {
        start
    } else {
        clamp_spec(fold_deltas(start, deltas.drop_last()) + deltas.last())
    }
}

/// Clamping yields a level whatever the input.
pub proof fn lemma_clamp_is_level(x: int)
    ensures
        is_level(clamp_spec(x)),
        is_level(x) ==> clamp_spec(x) == x,
{
}

/// Starting from any value, clamping it, and then applying any sequence of
/// deltas with a clamp after each one never leaves the level range.
pub proof fn lemma_deltas_stay_in_range(start: int, deltas: Seq<int>)
    ensures
        is_level(fold_deltas(clamp_spec(start), deltas)),
    decreases deltas.len(),
{
    if deltas.len() > 0 {
        lemma_deltas_stay_in_range(start, deltas.drop_last());
    }
}

/// Clamps a signed value into the level range.
pub fn clamp_level(x: i64) -> (r: u32)
    ensures
        r as int == clamp_spec(x as int),
        is_level(r as int),
{
    if x < 0 {
        0
    } else if x > LEVEL_ONE as i64 {
        LEVEL_ONE
    } else {
        x as u32
    }
}

/// Adds a signed delta to a level and clamps the sum.
pub fn add_clamped(level: u32, delta: i64) -> (r: u32)
    ensures
        r as int == clamp_spec(level + delta),
        is_level(r as int),
{
    let sum: i128 = level as i128 + delta as i128;
    if sum < 0 {
        0
    } else if sum > LEVEL_ONE as i128 {
        LEVEL_ONE
    } else {
        sum as u32
    }
}

/// `delta * intensity / LEVEL_ONE`, rounded toward zero.
pub open spec fn scale_spec(delta: int, intensity: int) -> int {
    if delta >= 0 {
        (delta * intensity) / (LEVEL_ONE as int)
    } else {
        -(((-delta) * intensity) / (LEVEL_ONE as int))
    }
}

/// Scales a signed delta by a level, rounding toward zero.
pub fn scale_delta(delta: i32, intensity: u32) -> (r: i64)
    requires
        is_level(intensity as int),
    ensures
        r as int == scale_spec(delta as int, intensity as int),
{
    if delta >= 0 {
        assert(0 <= delta as int * intensity as int <= 2147483647 * 1000) by (nonlinear_arith)
            requires
                0 <= delta <= 2147483647,
                0 <= intensity <= 1000,
        ;
        ((delta as i64) * (intensity as i64)) / (LEVEL_ONE as i64)
    } else {
        let neg: i64 = -(delta as i64);
        assert(0 <= neg as int * intensity as int <= 2147483648 * 1000) by (nonlinear_arith)
            requires
                0 <= neg <= 2147483648,
                0 <= intensity <= 1000,
        ;
        -((neg * (intensity as i64)) / (LEVEL_ONE as i64))
    }
}

} // verus!
