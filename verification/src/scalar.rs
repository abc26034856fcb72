//! Mutation of one bounded integer field.
//!
//! A value is either drawn afresh from its whole domain or walks a little
//! way up or down, never leaving the closed range `[min, max]`. The walk is
//! one unit long unless the caller asks for a bounded random stride.

use vstd::prelude::*;
use crate::stream::{draw_fraction, is_limit_for, uniform_i64, uniform_u64, Pcg32};

verus! {

/// A probability draw of at most this much, one fifth, redraws the value
/// from its whole domain.
pub const INT_REGEN_LIMIT: u64 = 1_801_439_850_948_198;

/// A probability draw of at most this much, one half, makes a walking value
/// step down rather than up.
pub const INT_STEP_DOWN_LIMIT: u64 = 0x10_0000_0000_0000;

/// The two limits stand for the probabilities 1/5 and 1/2.
pub proof fn lemma_int_limits()
    ensures
        is_limit_for(INT_REGEN_LIMIT, 1, 5),
        is_limit_for(INT_STEP_DOWN_LIMIT, 1, 2),
{
}

/// How a value that is not regenerated moves.
#[derive(Clone, Copy, Debug, PartialEq, Eq, Structural)]
pub enum IntWalk {
    /// One unit up or down: the default, which explores the bounds most
    /// finely.
    UnitStep,
    /// A stride drawn uniformly between `delta` down and `delta` up, each
    /// side cut off where the range ends.
    BoundedDelta { delta: u32 },
}

/// The room that a stride of at most `delta` has on one side of a value that
/// stands `room` away from its bound.
pub open spec fn stride_room(delta: u32, room: int) -> int {
    if room < delta {
        room
    } else {
        delta as int
    }
}

/// Where a unit step takes `value` inside `[min, max]`: down by one when that
/// is asked for and there is room below, else up by one when there is room
/// above, else nowhere.
pub open spec fn unit_step(value: int, min: int, max: int, down: bool) -> int {
    if down && value > min {
        value - 1
    } else if value < max {
        value + 1
    } else {
        value
    }
}

/// Tells whether a probability draw selects full regeneration.
pub fn regenerates(draw: u64) -> (yes: bool)
    ensures
        yes == (draw <= INT_REGEN_LIMIT),
{
    draw <= INT_REGEN_LIMIT
}

/// Tells whether a probability draw sends a walking value down.
pub fn steps_down(draw: u64) -> (yes: bool)
    ensures
        yes == (draw <= INT_STEP_DOWN_LIMIT),
{
    draw <= INT_STEP_DOWN_LIMIT
}

/// One unit step of a signed value.
pub fn step_signed(value: i64, min: i64, max: i64, down: bool) -> (next: i64)
    requires
        min <= value <= max,
    ensures
        next == unit_step(value as int, min as int, max as int, down),
        min <= next <= max,
{
    if down && value > min {
        value - 1
    } else if value < max {
        value + 1
    } else {
        value
    }
}

/// One unit step of an unsigned value.
pub fn step_unsigned(value: u64, min: u64, max: u64, down: bool) -> (next: u64)
    requires
        min <= value <= max,
    ensures
        next == unit_step(value as int, min as int, max as int, down),
        min <= next <= max,
{
    if down && value > min {
        value - 1
    } else if value < max {
        value + 1
    } else {
        value
    }
}

/// The longest strides that a signed value may take down and up.
pub fn signed_stride_room(value: i64, min: i64, max: i64, delta: u32) -> (room: (i64, i64))
    requires
        min <= value <= max,
    ensures
        room.0 == stride_room(delta, value - min),
        room.1 == stride_room(delta, max - value),
{
    let below: i64 = if value as i128 - min as i128 >= delta as i128 {
        delta as i64
    } else {
        value - min
    };
    let above: i64 = if max as i128 - value as i128 >= delta as i128 {
        delta as i64
    } else {
        max - value
    };
    (below, above)
}

/// The longest strides that an unsigned value may take down and up.
pub fn unsigned_stride_room(value: u64, min: u64, max: u64, delta: u32) -> (room: (i64, i64))
    requires
        min <= value <= max,
    ensures
        room.0 == stride_room(delta, value - min),
        room.1 == stride_room(delta, max - value),
{
    let below: i64 = if value - min >= delta as u64 {
        delta as i64
    } else {
        (value - min) as i64
    };
    let above: i64 = if max - value >= delta as u64 {
        delta as i64
    } else {
        (max - value) as i64
    };
    (below, above)
}

/// An unsigned value moved by a signed stride.
pub fn stride_unsigned(value: u64, stride: i64) -> (next: u64)
    requires
        0 <= value + stride <= u64::MAX,
    ensures
        next == value + stride,
{
    if stride < 0 {
        value - ((-(stride + 1)) as u64 + 1)
    } else {
        value + stride as u64
    }
}

/// Mutates a signed integer inside `[min, max]`.
///
/// The first draw decides between regeneration, which redraws the value
/// uniformly from the whole range, and a walk. A walk leaves a single-valued
/// range alone; otherwise a second draw, taken only when there is room below,
/// picks the direction of one unit step.
///
/// Whatever the stream yields, the value stays in range, and a range of one
/// value never changes.
pub fn mutate_signed_int(value: &mut i64, min: i64, max: i64, rng: &mut Pcg32)
    requires
        min <= *old(value) <= max,
    ensures
        min <= *final(value) <= max,
        min == max ==> *final(value) == *old(value),
{
    mutate_signed_int_with(value, min, max, IntWalk::UnitStep, rng);
}

/// Mutates a signed integer inside `[min, max]`, walking as `walk` says.
///
/// Regeneration is decided as in [`mutate_signed_int`], and a single-valued
/// range is left alone. A unit walk then goes on as described there. A
/// bounded-delta walk draws one stride uniformly from as far down as `delta`
/// or the distance to `min`, whichever is less, to as far up as `delta` or
/// the distance to `max`, whichever is less.
pub fn mutate_signed_int_with(
    value: &mut i64,
    min: i64,
    max: i64,
    walk: IntWalk,
    rng: &mut Pcg32,
)
    requires
        min <= *old(value) <= max,
    ensures
        min <= *final(value) <= max,
        min == max ==> *final(value) == *old(value),
{
    let first: u64 = draw_fraction(rng);
    if regenerates(first) {
        *value = uniform_i64(rng, min, max);
        return;
    }
    if *value == min && *value == max {
        return;
    }
    match walk {
        IntWalk::UnitStep => {
            let down: bool = *value > min && steps_down(draw_fraction(rng));
            *value = step_signed(*value, min, max, down);
        },
        IntWalk::BoundedDelta { delta } => {
            let (below, above) = signed_stride_room(*value, min, max, delta);
            let stride: i64 = uniform_i64(rng, -below, above);
            *value = *value + stride;
        },
    }
}

/// Mutates an unsigned integer inside `[min, max]`, by the same rules as
/// [`mutate_signed_int`].
pub fn mutate_unsigned_int(value: &mut u64, min: u64, max: u64, rng: &mut Pcg32)
    requires
        min <= *old(value) <= max,
    ensures
        min <= *final(value) <= max,
        min == max ==> *final(value) == *old(value),
{
    mutate_unsigned_int_with(value, min, max, IntWalk::UnitStep, rng);
}

/// Mutates an unsigned integer inside `[min, max]`, walking as `walk` says,
/// by the same rules as [`mutate_signed_int_with`].
pub fn mutate_unsigned_int_with(
    value: &mut u64,
    min: u64,
    max: u64,
    walk: IntWalk,
    rng: &mut Pcg32,
)
    requires
        min <= *old(value) <= max,
    ensures
        min <= *final(value) <= max,
        min == max ==> *final(value) == *old(value),
{
    let first: u64 = draw_fraction(rng);
    if regenerates(first) {
        *value = uniform_u64(rng, min, max);
        return;
    }
    if *value == min && *value == max {
        return;
    }
    match walk {
        IntWalk::UnitStep => {
            let down: bool = *value > min && steps_down(draw_fraction(rng));
            *value = step_unsigned(*value, min, max, down);
        },
        IntWalk::BoundedDelta { delta } => {
            let (below, above) = unsigned_stride_room(*value, min, max, delta);
            let stride: i64 = uniform_i64(rng, -below, above);
            *value = stride_unsigned(*value, stride);
        },
    }
}

} // verus!
