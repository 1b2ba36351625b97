//! The numbers of the game. Lengths are thousandths of a world unit,
//! angles are milliradians.

use vstd::prelude::*;

verus! {

/// How far the aiming ray reaches.
pub const MAX_RADIUS: i64 = 20_000;

/// The radius of a target's bounding sphere.
pub const TARGET_RADIUS: i64 = 1_000;

/// The radius of the shell, around the origin, on which targets stand.
pub const TARGET_DISTANCE: i64 = 8_000;

/// The square of the radius of the deadzone around a reference point.
pub const DEADZONE_RADIUS_SQUARED: i64 = 4_000_000;

/// The angle by which a target placed within the deadzone is turned.
pub const DEADZONE_ADJ_THETA: i64 = -20;

/// The denominator of `NUDGE_COSINE` and `NUDGE_SINE`.
pub const TRIG_SCALE: i64 = 1_000_000_000;

/// The cosine of `DEADZONE_ADJ_THETA`, in units of `1 / TRIG_SCALE`.
pub const NUDGE_COSINE: i64 = 999_800_007;

/// The sine of `DEADZONE_ADJ_THETA`, in units of `1 / TRIG_SCALE`.
pub const NUDGE_SINE: i64 = -19_998_667;

/// A random direction is drawn from the cube whose coordinates run from
/// `-SAMPLE_SPAN` up to, but not including, `SAMPLE_SPAN`.
pub const SAMPLE_SPAN: i64 = 1_000_000;

/// The pitch added by one frame of held input.
pub const PITCH_RATE: i64 = 10;

/// The roll added by one frame of held input.
pub const ROLL_RATE: i64 = 20;

/// The distance that the free-fly keys move the camera in one frame.
pub const TRANSLATE_RATE: i64 = 10;

} // verus!
