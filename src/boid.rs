//! Agent records, tuning weights and the plane's size.
use vstd::prelude::*;
use crate::vector::{Vec2, abs};

verus! {

/// Largest magnitude of any coordinate, speed, force or radius of an agent.
pub const COORD_MAX: i64 = 0x100_0000;

/// Largest number of agents a store may hold.
pub const MAX_AGENTS: usize = 0x10_0000;

/// Weights are given in thousandths.
pub const PER_MILLE: i128 = 1000;

/// The two kinds of agent.
#[derive(Clone, Copy, Debug, PartialEq, Eq, Structural)]
pub enum BoidType {
    Predator,
    Prey,
}

/// One agent of the flock.
#[derive(Clone, Copy, Debug, PartialEq, Eq, Structural)]
pub struct Boid {
    pub boid_type: BoidType,
    pub velocity: Vec2,
    pub acceleration: Vec2,
    pub max_force: i64,
    pub max_speed: i64,
    pub perception_radius: i64,
    pub position: Vec2,
}

/// Blending weights of the five behaviours, in thousandths.
#[derive(Clone, Copy, Debug, PartialEq, Eq, Structural)]
pub struct Weights {
    pub alignment: u32,
    pub cohesion: u32,
    pub separation: u32,
    pub flee: u32,
    pub chase: u32,
}

/// Size of the plane: it spans `[-w / 2, w / 2] x [-h / 2, h / 2]`.
#[derive(Clone, Copy, Debug, PartialEq, Eq, Structural)]
pub struct WinSize {
    pub w: i64,
    pub h: i64,
}

pub open spec fn in_coord_range(v: Vec2) -> bool {
    abs(v.x as int) <= COORD_MAX && abs(v.y as int) <= COORD_MAX
}

impl Boid {
    /// Every quantity of the agent lies within the fixed-point range, and its
    /// bounds are non-negative.
    pub open spec fn wf(self) -> bool {
        &&& in_coord_range(self.position)
        &&& in_coord_range(self.velocity)
        &&& in_coord_range(self.acceleration)
        &&& 0 <= self.max_force <= COORD_MAX
        &&& 0 <= self.max_speed <= COORD_MAX
        &&& 0 <= self.perception_radius <= COORD_MAX
    }
}

impl WinSize {
    pub open spec fn wf(self) -> bool {
        0 < self.w <= COORD_MAX && 0 < self.h <= COORD_MAX
    }
}

/// Every agent of `s` is well formed.
pub open spec fn all_wf(s: Seq<Boid>) -> bool {
    forall|i: int| 0 <= i < s.len() ==> #[trigger] s[i].wf()
}

/// A store the engine accepts: not too many agents, each well formed.
pub open spec fn store_wf(s: Seq<Boid>) -> bool {
    s.len() <= MAX_AGENTS && all_wf(s)
}

} // verus!
