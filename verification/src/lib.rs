//! The core of a target-shooting loop on an integer lattice.
//!
//! Lengths are whole thousandths of a world unit and angles whole
//! milliradians, so every rule of the game (the ray test, the placement
//! of targets, the ring of three targets, the aim accumulator) is exact
//! integer arithmetic with a proved contract.

pub mod arith;
pub mod consts;
pub mod vector;
pub mod hit;
pub mod ray_points;
pub mod placer;
pub mod target;
pub mod ring;
pub mod camera;
