//! The ring of three targets: one active, one next, one phantom.

use vstd::prelude::*;
use crate::consts::{MAX_RADIUS, TARGET_RADIUS};
use crate::hit::{segment_meets_ball, Ray};
use crate::placer::{in_sample_cube, random_direction};
use crate::target::{
    lemma_spawned, orient_target, spawn_target_from, spawned, Material, Target, TargetState,
};
use crate::vector::{SpecVec3, Vec3, VEC_LIMIT};

verus! {

/// How many of `targets` are in `state`.
pub open spec fn count_in_state(targets: Seq<Target>, state: TargetState) -> nat
    decreases targets.len(),
{
    if targets.len() == 0 {
        0
    } else {
        count_in_state(targets.drop_last(), state) + if targets.last().state == state {
            1nat
        } else {
            0nat
        }
    }
}

/// The three targets of the game. A hit on the active one moves each of
/// the other two up a place and brings in a new phantom.
#[derive(Clone, Copy, Debug, PartialEq, Eq)]
pub struct Ring {
    pub active: Target,
    pub next: Target,
    pub phantom: Target,
}

impl Ring {
    /// The targets of the ring, the active one first.
    pub open spec fn targets(self) -> Seq<Target> {
        seq![self.active, self.next, self.phantom]
    }

    /// Each place holds a target in the state of that place, drawn as
    /// the state asks.
    pub open spec fn wf(self) -> bool {
        &&& self.active.state == TargetState::Active
        &&& self.next.state == TargetState::Next
        &&& self.phantom.state == TargetState::Phantom
        &&& self.active.wf()
        &&& self.next.wf()
        &&& self.phantom.wf()
    }

    /// The ring made of three directions: the phantom first, free of
    /// any reference; the next target turned toward the phantom and
    /// kept off it; the active target turned toward the next one and
    /// kept off it.
    pub open spec fn seeded(
        phantom_sample: SpecVec3,
        next_sample: SpecVec3,
        active_sample: SpecVec3,
    ) -> Ring {
        let phantom = spawned(phantom_sample, TargetState::Phantom, None, None);
        let next = spawned(
            next_sample,
            TargetState::Next,
            Some(phantom.position),
            Some(phantom.position),
        );
        let active = spawned(
            active_sample,
            TargetState::Active,
            Some(next.position),
            Some(next.position),
        );
        Ring { active, next, phantom }
    }

    /// The ring after a hit, where the new phantom is made of the
    /// direction `sample`. The active target is gone. The next target is
    /// active and bright, where it stood. The phantom is the next
    /// target and shown, where it stood, and turned toward the new
    /// phantom. The new phantom is placed free of any deadzone and
    /// turned toward the place of the old one.
    pub open spec fn promoted(self, sample: SpecVec3) -> Ring {
        let phantom = spawned(
            sample,
            TargetState::Phantom,
            Some(self.phantom.position),
            None,
        );
        Ring {
            active: Target {
                state: TargetState::Active,
                material: Material::Bright,
                ..self.next
            },
            next: Target {
                state: TargetState::Next,
                visible: true,
                aim_point: Some(phantom.position),
                ..self.phantom
            },
            phantom,
        }
    }

    /// The ring after one hit for each of `samples`, in order.
    pub open spec fn after_hits(self, samples: Seq<SpecVec3>) -> Ring
        decreases samples.len(),
    {
        if samples.len() == 0 {
            self
        } else {
            self.after_hits(samples.drop_last()).promoted(samples.last())
        }
    }

    /// The ray meets the bounding sphere of the active target. No other
    /// target is ever tested.
    pub open spec fn hit_by(self, ray: Ray) -> bool {
        segment_meets_ball(
            self.active.position@.minus(ray.origin()@),
            ray.direction()@,
            ray.max() as int,
            TARGET_RADIUS as int,
        )
    }

    /// Whether each place holds a target in the state of that place,
    /// drawn as the state asks.
    pub fn is_well_formed(&self) -> (b: bool)
        ensures
            b == self.wf(),
    {
        self.active.state == TargetState::Active && self.next.state == TargetState::Next
            && self.phantom.state == TargetState::Phantom && self.active.is_well_formed()
            && self.next.is_well_formed() && self.phantom.is_well_formed()
    }

    /// The ring made of three directions.
    pub fn seed(phantom_sample: &Vec3, next_sample: &Vec3, active_sample: &Vec3) -> (ring: Ring)
        requires
            phantom_sample@.within(VEC_LIMIT as int),
            next_sample@.within(VEC_LIMIT as int),
            active_sample@.within(VEC_LIMIT as int),
        ensures
            ring == Ring::seeded(phantom_sample@, next_sample@, active_sample@),
            ring.wf(),
    {
        let phantom = spawn_target_from(phantom_sample, TargetState::Phantom, None, None);
        let next = spawn_target_from(
            next_sample,
            TargetState::Next,
            Some(phantom.position),
            Some(phantom.position),
        );
        let active = spawn_target_from(
            active_sample,
            TargetState::Active,
            Some(next.position),
            Some(next.position),
        );
        Ring { active, next, phantom }
    }

    /// Whether the ray hits the active target.
    pub fn is_hit(&self, ray: &Ray) -> (hit: bool)
        requires
            self.wf(),
            ray.wf(),
        ensures
            hit == self.hit_by(*ray),
    {
        let sphere = self.active.bounding_sphere();
        ray.intersects(&sphere)
    }

    /// What a hit does to the ring, where the new phantom is made of
    /// the direction `sample`. The target that was hit is handed back.
    pub fn target_hit(&mut self, sample: &Vec3) -> (destroyed: Target)
        requires
            old(self).wf(),
            sample@.within(VEC_LIMIT as int),
        ensures
            *final(self) == old(self).promoted(sample@),
            final(self).wf(),
            destroyed == old(self).active,
    {
        let destroyed = self.active;
        let phantom = spawn_target_from(
            sample,
            TargetState::Phantom,
            Some(self.phantom.position),
            None,
        );
        let mut active = self.next;
        active.state = TargetState::Active;
        active.material = Material::Bright;
        let mut next = self.phantom;
        next.state = TargetState::Next;
        next.visible = true;
        orient_target(&mut next, phantom.position);
        self.active = active;
        self.next = next;
        self.phantom = phantom;
        destroyed
    }
}

/// The ray that leaves the camera: from `origin` along `forward`, as
/// far as `MAX_RADIUS`. There is none where `forward` is zero or has a
/// coordinate beyond `DIR_LIMIT`.
pub fn aim_ray(origin: Vec3, forward: Vec3) -> (ray: Option<Ray>)
    ensures
        ray.is_some() <==> Ray::valid(forward, MAX_RADIUS),
        ray matches Some(r) ==> r.wf() && r.origin() == origin && r.direction() == forward
            && r.max() == MAX_RADIUS,
{
    Ray::new(origin, forward, MAX_RADIUS)
}

/// A new ring in three random directions.
pub fn spawn_initial_targets() -> (ring: Ring)
    ensures
        ring.wf(),
        exists|p: Vec3, n: Vec3, a: Vec3| #[trigger]
            Ring::seeded(p@, n@, a@) == ring && in_sample_cube(p@) && in_sample_cube(n@)
                && in_sample_cube(a@),
{
    let p = random_direction();
    let n = random_direction();
    let a = random_direction();
    Ring::seed(&p, &n, &a)
}

/// One frame of the game: where a camera's ray hits the active
/// target, the ring moves on and the target that was hit is handed
/// back. With no ray, or no hit, nothing changes.
pub fn aim_check(ring: &mut Ring, ray: Option<Ray>) -> (destroyed: Option<Target>)
    requires
        old(ring).wf(),
        ray matches Some(r) ==> r.wf(),
    ensures
        final(ring).wf(),
        destroyed.is_some() <==> (ray matches Some(r) && old(ring).hit_by(r)),
        destroyed.is_none() ==> *final(ring) == *old(ring),
        destroyed matches Some(t) ==> t == old(ring).active && exists|sample: Vec3| #[trigger]
            old(ring).promoted(sample@) == *final(ring) && in_sample_cube(sample@),
{
    match ray {
        Some(r) => {
            if ring.is_hit(&r) {
                let sample = random_direction();
                Some(ring.target_hit(&sample))
            } else {
                None
            }
        },
        None => None,
    }
}

/// A ring holds exactly one target in each state.
pub proof fn lemma_one_of_each(ring: Ring)
    requires
        ring.wf(),
    ensures
        ring.targets().len() == 3,
        count_in_state(ring.targets(), TargetState::Active) == 1,
        count_in_state(ring.targets(), TargetState::Next) == 1,
        count_in_state(ring.targets(), TargetState::Phantom) == 1,
{
    let t = ring.targets();
    let t2 = t.drop_last();
    let t1 = t2.drop_last();
    let t0 = t1.drop_last();
    assert(t0.len() == 0);
    assert(t1.last() == ring.active);
    assert(t2.last() == ring.next);
    assert(t.last() == ring.phantom);
    reveal_with_fuel(count_in_state, 4);
}

/// A hit leaves a well-formed ring well formed.
pub proof fn lemma_ring_stays(ring: Ring, sample: SpecVec3)
    requires
        ring.wf(),
    ensures
        ring.promoted(sample).wf(),
{
    lemma_spawned(sample, TargetState::Phantom, Some(ring.phantom.position), None);
}

/// The ring made of three directions is well formed.
pub proof fn lemma_seeded(p: SpecVec3, n: SpecVec3, a: SpecVec3)
    ensures
        Ring::seeded(p, n, a).wf(),
{
    let phantom = spawned(p, TargetState::Phantom, None, None);
    lemma_spawned(p, TargetState::Phantom, None, None);
    let next = spawned(n, TargetState::Next, Some(phantom.position), Some(phantom.position));
    lemma_spawned(n, TargetState::Next, Some(phantom.position), Some(phantom.position));
    lemma_spawned(a, TargetState::Active, Some(next.position), Some(next.position));
}

/// In every frame the ring holds exactly one active target, one next
/// target and one phantom: so it is made, and so every hit leaves it.
pub proof fn lemma_ring_invariant(p: SpecVec3, n: SpecVec3, a: SpecVec3, samples: Seq<SpecVec3>)
    ensures
        Ring::seeded(p, n, a).after_hits(samples).wf(),
        count_in_state(Ring::seeded(p, n, a).after_hits(samples).targets(), TargetState::Active)
            == 1,
        count_in_state(Ring::seeded(p, n, a).after_hits(samples).targets(), TargetState::Next)
            == 1,
        count_in_state(Ring::seeded(p, n, a).after_hits(samples).targets(), TargetState::Phantom)
            == 1,
    decreases samples.len(),
{
    let ring = Ring::seeded(p, n, a);
    if samples.len() == 0 {
        lemma_seeded(p, n, a);
    } else {
        lemma_ring_invariant(p, n, a, samples.drop_last());
        lemma_ring_stays(ring.after_hits(samples.drop_last()), samples.last());
    }
    lemma_one_of_each(ring.after_hits(samples));
}

} // verus!
