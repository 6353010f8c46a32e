//! One simulation tick: species-dependent force blending, integration and
//! toroidal wrap, computed for every agent from the state before the tick.
use vstd::prelude::*;
use crate::vector::{Vec2, abs, len_sq, clamp_len, clamp_length_max};
use crate::boid::{Boid, BoidType, Weights, WinSize, MAX_AGENTS, all_wf, store_wf};
use crate::steering::{
    alignment, alignment_of, chase, chase_of, cohesion, cohesion_of, flee,
    flee_of, separation, separation_of,
};

verus! {

/// The predators of `s`, in order.
pub open spec fn predators(s: Seq<Boid>) -> Seq<Boid>
    decreases s.len(),
{
    if s.len() == 0 {
        Seq::empty()
    } else if s.last().boid_type == BoidType::Predator {
        predators(s.drop_last()).push(s.last())
    } else {
        predators(s.drop_last())
    }
}

/// Every agent of `s` but the one at index `i`, in order.
pub open spec fn others(s: Seq<Boid>, i: int) -> Seq<Boid> {
    s.subrange(0, i) + s.subrange(i + 1, s.len() as int)
}

pub open spec fn vsum(a: (int, int), b: (int, int)) -> (int, int) {
    (a.0 + b.0, a.1 + b.1)
}

/// The blended steering of `b` among `s`, before clamping: predators keep
/// apart from other predators and chase prey; prey flee predators and flock.
pub open spec fn raw_steering(b: Boid, s: Seq<Boid>, w: Weights) -> (int, int) {
    match b.boid_type {
        BoidType::Predator => vsum(
            separation_of(b, predators(s), w.separation as int),
            chase_of(b, s, w.chase as int),
        ),
        BoidType::Prey => vsum(
            vsum(flee_of(b, s, w.flee as int), alignment_of(b, s, w.alignment as int)),
            vsum(cohesion_of(b, s, w.cohesion as int), separation_of(b, s, w.separation as int)),
        ),
    }
}

/// The blended steering of `b` among `s`, clamped to its largest force.
pub open spec fn steering_of(b: Boid, s: Seq<Boid>, w: Weights) -> (int, int) {
    let r = raw_steering(b, s, w);
    clamp_len(r.0, r.1, b.max_force as int)
}

/// `x` moved to the opposite edge when it lies beyond `[-half, half]`.
pub open spec fn wrap(x: int, half: int) -> int {
    if x > half {
        -half
    } else if x < -half {
        half
    } else {
        x
    }
}

/// The velocity of `b` after one tick among `s`.
pub open spec fn next_velocity(b: Boid, s: Seq<Boid>, w: Weights) -> (int, int) {
    let f = steering_of(b, s, w);
    let a = (b.acceleration.x + f.0, b.acceleration.y + f.1);
    clamp_len(b.velocity.x + a.0, b.velocity.y + a.1, b.max_speed as int)
}

/// The position of `b` after one tick among `s`, before the wrap.
pub open spec fn unwrapped_position(b: Boid, s: Seq<Boid>, w: Weights) -> (int, int) {
    let v = next_velocity(b, s, w);
    (b.position.x + v.0, b.position.y + v.1)
}

/// `b` after one tick among the agents `s`, on the plane `win`.
pub open spec fn step(b: Boid, s: Seq<Boid>, w: Weights, win: WinSize) -> Boid {
    let v = next_velocity(b, s, w);
    let p = unwrapped_position(b, s, w);
    Boid {
        velocity: Vec2 { x: v.0 as i64, y: v.1 as i64 },
        acceleration: Vec2 { x: 0, y: 0 },
        position: Vec2 { x: wrap(p.0, win.w / 2) as i64, y: wrap(p.1, win.h / 2) as i64 },
        ..b
    }
}

/// The store `s` after one tick: each agent steps among all the others, as
/// they were before the tick.
pub open spec fn tick(s: Seq<Boid>, w: Weights, win: WinSize) -> Seq<Boid> {
    Seq::new(s.len(), |i: int| step(s[i], others(s, i), w, win))
}

/// The blended steering of `boid` among `boids`, clamped to its largest force.
pub fn steer(boids: &[Boid], boid: &Boid, weights: &Weights) -> (r: Vec2)
    requires
        boid.wf(),
        all_wf(boids@),
        boids@.len() <= MAX_AGENTS,
    ensures
        (r.x as int, r.y as int) == steering_of(*boid, boids@, *weights),
        len_sq(r.x as int, r.y as int) <= boid.max_force * boid.max_force,
        abs(r.x as int) <= boid.max_force,
        abs(r.y as int) <= boid.max_force,
{
    let raw = match boid.boid_type {
        BoidType::Predator => {
            let hunters = predators_exec(boids);
            let a = separation(hunters.as_slice(), boid, weights);
            let b = chase(boids, boid, weights);
            Vec2 { x: a.x + b.x, y: a.y + b.y }
        },
        BoidType::Prey => {
            let a = flee(boids, boid, weights);
            let b = alignment(boids, boid, weights);
            let c = cohesion(boids, boid, weights);
            let d = separation(boids, boid, weights);
            Vec2 { x: (a.x + b.x) + (c.x + d.x), y: (a.y + b.y) + (c.y + d.y) }
        },
    };
    clamp_length_max(raw, boid.max_force)
}

/// The predators of `boids`, in order.
pub fn predators_exec(boids: &[Boid]) -> (r: Vec<Boid>)
    ensures
        r@ == predators(boids@),
        all_wf(boids@) ==> all_wf(r@),
        r@.len() <= boids@.len(),
{
    let mut r: Vec<Boid> = Vec::new();
    let mut i: usize = 0;
    while i < boids.len()
        invariant
            i <= boids@.len(),
            r@ == predators(boids@.subrange(0, i as int)),
            r@.len() <= i,
            all_wf(boids@) ==> all_wf(r@),
        decreases boids@.len() - i,
    {
        proof {
            assert(boids@.subrange(0, i + 1).drop_last() =~= boids@.subrange(0, i as int));
        }
        if boids[i].boid_type == BoidType::Predator {
            r.push(boids[i]);
        }
        i = i + 1;
    }
    proof {
        assert(boids@.subrange(0, boids@.len() as int) =~= boids@);
    }
    r
}

/// Every agent of `boids` but the one at index `i`, in order.
pub fn others_exec(boids: &[Boid], i: usize) -> (r: Vec<Boid>)
    requires
        i < boids@.len(),
    ensures
        r@ == others(boids@, i as int),
        all_wf(boids@) ==> all_wf(r@),
{
    let mut r: Vec<Boid> = Vec::new();
    let mut j: usize = 0;
    while j < boids.len()
        invariant
            i < boids@.len(),
            j <= boids@.len(),
            j <= i ==> r@ == boids@.subrange(0, j as int),
            j > i ==> r@ == boids@.subrange(0, i as int) + boids@.subrange(i + 1, j as int),
        decreases boids@.len() - j,
    {
        if j != i {
            r.push(boids[j]);
        }
        proof {
            if j < i {
                assert(r@ =~= boids@.subrange(0, j + 1));
            } else if j == i {
                assert(r@ =~= boids@.subrange(0, i as int) + boids@.subrange(i + 1, j + 1));
            } else {
                assert(r@ =~= boids@.subrange(0, i as int) + boids@.subrange(i + 1, j + 1));
            }
        }
        j = j + 1;
    }
    proof {
        if all_wf(boids@) {
            assert forall|k: int| 0 <= k < r@.len() implies #[trigger] r@[k].wf() by {
                if k < i {
                    assert(r@[k] == boids@[k]);
                } else {
                    assert(r@[k] == boids@[k + 1]);
                }
            }
        }
    }
    r
}

/// `x` moved to the opposite edge when it lies beyond `[-half, half]`.
pub fn wrap_exec(x: i64, half: i64) -> (r: i64)
    requires
        half >= 0,
    ensures
        r == wrap(x as int, half as int),
        -half <= r <= half,
{
    if x > half {
        -half
    } else if x < -half {
        half
    } else {
        x
    }
}

/// `boid` after one tick among the agents `others`: its steering is added to
/// its acceleration, the acceleration to its velocity (clamped to its top
/// speed), the velocity to its position (wrapped to the plane), and the
/// acceleration is reset.
pub fn step_boid(boid: &Boid, others: &[Boid], weights: &Weights, win: &WinSize) -> (r: Boid)
    requires
        boid.wf(),
        all_wf(others@),
        others@.len() <= MAX_AGENTS,
        win.wf(),
    ensures
        r == step(*boid, others@, *weights, *win),
        r.wf(),
        len_sq(r.velocity.x as int, r.velocity.y as int) <= boid.max_speed * boid.max_speed,
        -(win.w / 2) <= r.position.x <= win.w / 2,
        -(win.h / 2) <= r.position.y <= win.h / 2,
{
    let f = steer(others, boid, weights);
    let ax = boid.acceleration.x + f.x;
    let ay = boid.acceleration.y + f.y;
    let v = clamp_length_max(
        Vec2 { x: boid.velocity.x + ax, y: boid.velocity.y + ay },
        boid.max_speed,
    );
    let px = boid.position.x + v.x;
    let py = boid.position.y + v.y;
    let position = Vec2 { x: wrap_exec(px, win.w / 2), y: wrap_exec(py, win.h / 2) };
    Boid { velocity: v, acceleration: Vec2 { x: 0, y: 0 }, position, ..*boid }
}

/// Advances every agent of the store by one tick. Each agent's new state is
/// computed from the state of all agents before the tick, so the order of
/// the store does not leak into the result.
pub fn advance_tick(agents: &mut Vec<Boid>, win: &WinSize, weights: &Weights)
    requires
        store_wf(old(agents)@),
        win.wf(),
    ensures
        final(agents)@ == tick(old(agents)@, *weights, *win),
        store_wf(final(agents)@),
        final(agents)@.len() == old(agents)@.len(),
        forall|i: int|
            0 <= i < final(agents)@.len() ==> {
                let a = #[trigger] final(agents)@[i];
                let b = old(agents)@[i];
                &&& len_sq(a.velocity.x as int, a.velocity.y as int) <= a.max_speed * a.max_speed
                &&& -(win.w / 2) <= a.position.x <= win.w / 2
                &&& -(win.h / 2) <= a.position.y <= win.h / 2
                &&& a.acceleration == Vec2 { x: 0, y: 0 }
                &&& a.boid_type == b.boid_type
                &&& a.max_speed == b.max_speed
                &&& a.max_force == b.max_force
                &&& a.perception_radius == b.perception_radius
            },
{
    let mut next: Vec<Boid> = Vec::new();
    let mut i: usize = 0;
    while i < agents.len()
        invariant
            store_wf(agents@),
            win.wf(),
            i <= agents@.len(),
            next@.len() == i,
            forall|k: int|
                0 <= k < i ==> #[trigger] next@[k] == step(
                    agents@[k],
                    others(agents@, k),
                    *weights,
                    *win,
                ),
            forall|k: int|
                0 <= k < i ==> {
                    let a = #[trigger] next@[k];
                    &&& a.wf()
                    &&& len_sq(a.velocity.x as int, a.velocity.y as int) <= a.max_speed
                        * a.max_speed
                    &&& -(win.w / 2) <= a.position.x <= win.w / 2
                    &&& -(win.h / 2) <= a.position.y <= win.h / 2
                },
        decreases agents@.len() - i,
    {
        let rest = others_exec(agents.as_slice(), i);
        proof {
            assert(agents@[i as int].wf());
        }
        let b = step_boid(&agents[i], rest.as_slice(), weights, win);
        next.push(b);
        i = i + 1;
    }
    proof {
        assert(next@ =~= tick(agents@, *weights, *win));
    }
    *agents = next;
}

} // verus!
