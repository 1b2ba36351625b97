//! The camera's aim: pitch and roll gathered from held input, and the
//! motion that each frame asks of the camera.

use vstd::prelude::*;
use crate::consts::{PITCH_RATE, ROLL_RATE, TRANSLATE_RATE};
use crate::vector::Vec3;

verus! {

/// Where the camera starts and how fast held input turns it, in
/// milliradians a frame.
#[derive(Clone, Copy, Debug, PartialEq, Eq)]
pub struct CameraSettings {
    pub pos: Vec3,
    pub pitch_rate: i32,
    pub roll_rate: i32,
}

/// The pitch and roll gathered so far, in milliradians. Neither is ever
/// reset.
#[derive(Clone, Copy, Debug, PartialEq, Eq)]
pub struct CameraAimState {
    pub pitch: i64,
    pub roll: i64,
}

/// The actions held during one frame.
#[derive(Clone, Copy, Debug, PartialEq, Eq)]
pub struct AimInput {
    pub pitch_up: bool,
    pub pitch_down: bool,
    pub roll_left: bool,
    pub roll_right: bool,
    pub move_up: bool,
    pub move_down: bool,
    pub move_right: bool,
    pub move_left: bool,
    pub move_forward: bool,
    pub move_back: bool,
}

/// What one frame asks of the camera.
#[derive(Clone, Copy, Debug, PartialEq, Eq)]
pub struct CameraMotion {
    /// A shift along the camera's own right, up and forward axes, in
    /// that order.
    pub translation: Option<Vec3>,
    /// A turn in the camera's own frame by this pitch and this roll,
    /// with no yaw, composed as yaw, then pitch, then roll.
    pub rotation: Option<(i64, i64)>,
}

/// What a pair of opposed actions adds at the given rate: the rate for
/// the first, less the rate for the second.
pub open spec fn axis_delta(rate: int, plus: bool, minus: bool) -> int {
    rate * (if plus { 1int } else { 0int }) - rate * (if minus { 1int } else { 0int })
}

impl AimInput {
    /// No action is held.
    pub open spec fn idle() -> AimInput {
        AimInput {
            pitch_up: false,
            pitch_down: false,
            roll_left: false,
            roll_right: false,
            move_up: false,
            move_down: false,
            move_right: false,
            move_left: false,
            move_forward: false,
            move_back: false,
        }
    }

    /// No action is held.
    pub fn none() -> (input: AimInput)
        ensures
            input == AimInput::idle(),
    {
        AimInput {
            pitch_up: false,
            pitch_down: false,
            roll_left: false,
            roll_right: false,
            move_up: false,
            move_down: false,
            move_right: false,
            move_left: false,
            move_forward: false,
            move_back: false,
        }
    }

    pub open spec fn pitch_delta(self, settings: CameraSettings) -> int {
        axis_delta(settings.pitch_rate as int, self.pitch_up, self.pitch_down)
    }

    pub open spec fn roll_delta(self, settings: CameraSettings) -> int {
        axis_delta(settings.roll_rate as int, self.roll_left, self.roll_right)
    }

    /// The shift along the camera's right, up and forward axes: the
    /// held directions summed, each at `TRANSLATE_RATE`.
    pub open spec fn shift(self) -> Vec3 {
        Vec3 {
            x: axis_delta(TRANSLATE_RATE as int, self.move_right, self.move_left) as i64,
            y: axis_delta(TRANSLATE_RATE as int, self.move_up, self.move_down) as i64,
            z: axis_delta(TRANSLATE_RATE as int, self.move_forward, self.move_back) as i64,
        }
    }
}

impl CameraAimState {
    /// The state after a frame of `input`.
    pub open spec fn advanced(self, settings: CameraSettings, input: AimInput) -> CameraAimState {
        CameraAimState {
            pitch: (self.pitch + input.pitch_delta(settings)) as i64,
            roll: (self.roll + input.roll_delta(settings)) as i64,
        }
    }

    /// A frame of `input` keeps pitch and roll within the machine's
    /// integers.
    pub open spec fn can_advance(self, settings: CameraSettings, input: AimInput) -> bool {
        &&& i64::MIN <= self.pitch + input.pitch_delta(settings) <= i64::MAX
        &&& i64::MIN <= self.roll + input.roll_delta(settings) <= i64::MAX
    }

    /// Whether a frame of `input` keeps pitch and roll within the
    /// machine's integers.
    pub fn fits(&self, settings: &CameraSettings, input: &AimInput) -> (b: bool)
        ensures
            b == self.can_advance(*settings, *input),
    {
        let dp: i64 = held_delta(settings.pitch_rate, input.pitch_up, input.pitch_down);
        let dr: i64 = held_delta(settings.roll_rate, input.roll_left, input.roll_right);
        self.pitch.checked_add(dp).is_some() && self.roll.checked_add(dr).is_some()
    }
}

/// The motion that a frame of `input` asks for, on the state that the
/// frame leaves: a shift where the held directions do not cancel, and
/// a turn by the whole of the gathered pitch and roll where the frame
/// changed either.
pub open spec fn motion_of(after: CameraAimState, settings: CameraSettings, input: AimInput)
    -> CameraMotion {
    CameraMotion {
        translation: if input.shift() != (Vec3 { x: 0, y: 0, z: 0 }) {
            Some(input.shift())
        } else {
            None
        },
        rotation: if input.pitch_delta(settings) != 0 || input.roll_delta(settings) != 0 {
            Some((after.pitch, after.roll))
        } else {
            None
        },
    }
}

/// What a pair of opposed actions adds at the given rate.
fn held_delta(rate: i32, plus: bool, minus: bool) -> (d: i64)
    ensures
        d == axis_delta(rate as int, plus, minus),
{
    let mut total: i64 = 0;
    if plus {
        total = total + rate as i64;
    }
    if minus {
        total = total - rate as i64;
    }
    total
}

/// One frame of input: gathers pitch and roll, and says how the camera
/// is to move.
pub fn camera_control(settings: &CameraSettings, state: &mut CameraAimState, input: &AimInput) -> (motion:
    CameraMotion)
    requires
        old(state).can_advance(*settings, *input),
    ensures
        *final(state) == old(state).advanced(*settings, *input),
        motion == motion_of(*final(state), *settings, *input),
{
    let right: i64 = held_delta(TRANSLATE_RATE as i32, input.move_right, input.move_left);
    let up: i64 = held_delta(TRANSLATE_RATE as i32, input.move_up, input.move_down);
    let forward: i64 = held_delta(TRANSLATE_RATE as i32, input.move_forward, input.move_back);
    let translation = if forward != 0 || right != 0 || up != 0 {
        Some(Vec3 { x: right, y: up, z: forward })
    } else {
        None
    };
    let pitch_total: i64 = held_delta(settings.pitch_rate, input.pitch_up, input.pitch_down);
    let roll_total: i64 = held_delta(settings.roll_rate, input.roll_left, input.roll_right);
    state.pitch = state.pitch + pitch_total;
    state.roll = state.roll + roll_total;
    let rotation = if pitch_total != 0 || roll_total != 0 {
        Some((state.pitch, state.roll))
    } else {
        None
    };
    CameraMotion { translation, rotation }
}

impl Default for CameraSettings {
    fn default() -> (settings: CameraSettings)
        ensures
            settings.pos == (Vec3 { x: 0, y: 0, z: 0 }),
            settings.pitch_rate == PITCH_RATE,
            settings.roll_rate == ROLL_RATE,
    {
        CameraSettings {
            pos: Vec3 { x: 0, y: 0, z: 0 },
            pitch_rate: PITCH_RATE as i32,
            roll_rate: ROLL_RATE as i32,
        }
    }
}

impl Default for CameraAimState {
    fn default() -> (state: CameraAimState)
        ensures
            state.pitch == 0,
            state.roll == 0,
    {
        CameraAimState { pitch: 0, roll: 0 }
    }
}

/// The pitch after the frames of `inputs`, in order, from `pitch`.
pub open spec fn pitch_after(pitch: int, settings: CameraSettings, inputs: Seq<AimInput>) -> int
    decreases inputs.len(),
{
    if inputs.len() == 0 {
        pitch
    } else {
        pitch_after(pitch, settings, inputs.drop_last()) + inputs.last().pitch_delta(settings)
    }
}

/// Frames that all hold pitch-up, and none pitch-down, add the pitch
/// rate once each.
pub proof fn lemma_pitch_gathers(pitch: int, settings: CameraSettings, inputs: Seq<AimInput>)
    requires
        forall|i: int| 0 <= i < inputs.len() ==> inputs[i].pitch_up && !inputs[i].pitch_down,
    ensures
        pitch_after(pitch, settings, inputs) == pitch + inputs.len() * settings.pitch_rate,
    decreases inputs.len(),
{
    if inputs.len() > 0 {
        lemma_pitch_gathers(pitch, settings, inputs.drop_last());
        assert(inputs.len() * settings.pitch_rate == (inputs.len() - 1) * settings.pitch_rate
            + settings.pitch_rate) by (nonlinear_arith);
    }
}

/// One frame of `camera_control` is one step of `pitch_after`.
pub proof fn lemma_frame_is_step(
    state: CameraAimState,
    settings: CameraSettings,
    inputs: Seq<AimInput>,
    input: AimInput,
    pitch: int,
)
    requires
        state.pitch == pitch_after(pitch, settings, inputs),
        state.can_advance(settings, input),
    ensures
        state.advanced(settings, input).pitch == pitch_after(pitch, settings, inputs.push(input)),
{
    assert(inputs.push(input).drop_last() =~= inputs);
}

} // verus!
