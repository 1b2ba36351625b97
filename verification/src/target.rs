//! A target, and how one is made.

use vstd::prelude::*;
use crate::consts::{TARGET_DISTANCE, TARGET_RADIUS};
use crate::hit::BoundingSphere;
use crate::placer::{
    in_sample_cube, lemma_near_shell_within, lemma_placement_near_shell, near_shell, place,
    placement, random_direction,
};
use crate::vector::{lemma_norm_sq_bound, SpecVec3, Vec3, VEC_LIMIT};

verus! {

/// The place of a target in the ring.
#[derive(Clone, Copy, Debug, PartialEq, Eq, Structural)]
pub enum TargetState {
    /// The one target that can be hit.
    Active,
    /// Its successor, shown faded.
    Next,
    /// The ghost: the successor after that, hidden.
    Phantom,
}

/// How a target is drawn.
#[derive(Clone, Copy, Debug, PartialEq, Eq, Structural)]
pub enum Material {
    Bright,
    Faded,
}

/// Every target but the phantom is shown.
pub open spec fn shown_in(state: TargetState) -> bool {
    state != TargetState::Phantom
}

/// Only the active target is bright.
pub open spec fn material_in(state: TargetState) -> Material {
    if state == TargetState::Active {
        Material::Bright
    } else {
        Material::Faded
    }
}

/// The lattice point with the coordinates of `v`.
pub open spec fn lattice_point(v: SpecVec3) -> Vec3 {
    Vec3 { x: v.x as i64, y: v.y as i64, z: v.z as i64 }
}

/// A target: where it stands, what it is turned toward besides the
/// origin, its place in the ring, and how it is drawn.
#[derive(Clone, Copy, Debug, PartialEq, Eq)]
pub struct Target {
    pub position: Vec3,
    pub aim_point: Option<Vec3>,
    pub state: TargetState,
    pub visible: bool,
    pub material: Material,
}

/// The target that `spawn_target` makes of the direction `sample`.
pub open spec fn spawned(
    sample: SpecVec3,
    state: TargetState,
    aim_point: Option<Vec3>,
    deadzone: Option<Vec3>,
) -> Target {
    Target {
        position: lattice_point(placement(sample, deadzone)),
        aim_point,
        state,
        visible: shown_in(state),
        material: material_in(state),
    }
}

impl Target {
    /// The target is drawn as its state asks, and stands within four
    /// of the shell.
    pub open spec fn wf(self) -> bool {
        &&& self.visible == shown_in(self.state)
        &&& self.material == material_in(self.state)
        &&& near_shell(self.position@, 4)
    }

    /// Whether the target is drawn as its state asks and stands within
    /// four of the shell.
    pub fn is_well_formed(&self) -> (b: bool)
        ensures
            b == self.wf(),
    {
        let shown = match self.state {
            TargetState::Phantom => false,
            _ => true,
        };
        let material = match self.state {
            TargetState::Active => Material::Bright,
            _ => Material::Faded,
        };
        if self.visible != shown || self.material != material {
            return false;
        }
        let reach: i64 = TARGET_DISTANCE + 4;
        if !self.position.is_within(reach) {
            proof {
                if near_shell(self.position@, 4) {
                    lemma_near_shell_within(self.position@, 4);
                }
            }
            return false;
        }
        proof {
            lemma_norm_sq_bound(self.position@, reach as int);
        }
        let p = self.position;
        let n: i64 = p.x * p.x + p.y * p.y + p.z * p.z;
        (TARGET_DISTANCE - 4) * (TARGET_DISTANCE - 4) <= n && n <= (TARGET_DISTANCE + 4) * (
        TARGET_DISTANCE + 4)
    }

    /// The ball that a ray must meet to hit the target.
    pub fn bounding_sphere(&self) -> (s: BoundingSphere)
        ensures
            s.wf(),
            s.center() == self.position,
            s.radius() == TARGET_RADIUS,
    {
        BoundingSphere::new(self.position, TARGET_RADIUS).unwrap()
    }

    /// The direction from the target to the origin, toward which its
    /// first axis is turned.
    pub fn toward_center(&self) -> (d: Vec3)
        requires
            self.wf(),
        ensures
            d@ == self.position@.times(-1),
    {
        proof {
            lemma_near_shell_within(self.position@, 4);
        }
        Vec3 { x: -self.position.x, y: -self.position.y, z: -self.position.z }
    }
}

/// A placed target stands within four of the shell, so its position
/// is a lattice point.
pub proof fn lemma_spawned(
    sample: SpecVec3,
    state: TargetState,
    aim_point: Option<Vec3>,
    deadzone: Option<Vec3>,
)
    ensures
        spawned(sample, state, aim_point, deadzone).wf(),
        spawned(sample, state, aim_point, deadzone).position@ == placement(sample, deadzone),
{
    lemma_placement_near_shell(sample, deadzone);
    lemma_near_shell_within(placement(sample, deadzone), 4);
}

/// The target made of the direction `sample`: placed on the shell, off
/// the deadzone's reference point, in `state` and drawn as that asks.
pub fn spawn_target_from(
    sample: &Vec3,
    state: TargetState,
    aim_point: Option<Vec3>,
    deadzone: Option<Vec3>,
) -> (t: Target)
    requires
        sample@.within(VEC_LIMIT as int),
    ensures
        t == spawned(sample@, state, aim_point, deadzone),
        t.wf(),
{
    proof {
        lemma_spawned(sample@, state, aim_point, deadzone);
    }
    let position = place(sample, deadzone);
    let (visible, material) = match state {
        TargetState::Active => (true, Material::Bright),
        TargetState::Next => (true, Material::Faded),
        TargetState::Phantom => (false, Material::Faded),
    };
    Target { position, aim_point, state, visible, material }
}

/// A new target in a random direction.
pub fn spawn_target(state: TargetState, aim_point: Option<Vec3>, deadzone: Option<Vec3>) -> (t:
    Target)
    ensures
        t.wf(),
        exists|sample: Vec3| #[trigger]
            in_sample_cube(sample@) && t == spawned(sample@, state, aim_point, deadzone),
{
    let sample = random_direction();
    spawn_target_from(&sample, state, aim_point, deadzone)
}

/// Turns the target toward `aim_point`; toward the origin it stays
/// turned.
pub fn orient_target(target: &mut Target, aim_point: Vec3)
    ensures
        *final(target) == (Target { aim_point: Some(aim_point), ..*old(target) }),
{
    target.aim_point = Some(aim_point);
}

} // verus!
