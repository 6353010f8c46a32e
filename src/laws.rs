//! Properties of the engine that relate several calls or hold of every input.
use vstd::prelude::*;
use crate::vector::{Vec2, len_sq, lemma_clamp_len_bound, zero};
use crate::boid::{Boid, BoidType, Weights, WinSize, PER_MILLE};
use crate::steering::{
    is_neighbor, neighbor_of, predator_neighbor_of, count_where, sum_where, first_prey,
    alignment_of, cohesion_of, separation_of, flee_of, chase_of, velocity_of, position_of,
    push_from, FINE,
};
use crate::tick::{
    next_velocity, predators, raw_steering, steering_of, step, tick, unwrapped_position, others,
};

verus! {

/// `t1` and `t2` have the same length, and wherever they differ neither agent
/// is a neighbour of `b`.
pub open spec fn agree_for(b: Boid, t1: Seq<Boid>, t2: Seq<Boid>) -> bool {
    &&& t1.len() == t2.len()
    &&& forall|k: int|
        0 <= k < t1.len() ==> t1[k] == t2[k] || (!is_neighbor(b, #[trigger] t1[k]) && !is_neighbor(
            b,
            t2[k],
        ))
}

proof fn lemma_agree_sums(
    b: Boid,
    t1: Seq<Boid>,
    t2: Seq<Boid>,
    keep: spec_fn(Boid) -> bool,
    term: spec_fn(Boid) -> (int, int),
)
    requires
        agree_for(b, t1, t2),
        forall|o: Boid| #[trigger] keep(o) ==> is_neighbor(b, o),
    ensures
        count_where(t1, keep) == count_where(t2, keep),
        sum_where(t1, keep, term) == sum_where(t2, keep, term),
    decreases t1.len(),
{
    if t1.len() > 0 {
        let (u1, u2) = (t1.drop_last(), t2.drop_last());
        assert forall|k: int| 0 <= k < u1.len() implies u1[k] == u2[k] || (!is_neighbor(
            b,
            #[trigger] u1[k],
        ) && !is_neighbor(b, u2[k])) by {
            assert(u1[k] == t1[k] && u2[k] == t2[k]);
        }
        lemma_agree_sums(b, u1, u2, keep, term);
        let n = t1.len() - 1;
        assert(t1[n] == t2[n] || (!is_neighbor(b, t1[n]) && !is_neighbor(b, t2[n])));
    }
}

proof fn lemma_agree_first_prey(b: Boid, t1: Seq<Boid>, t2: Seq<Boid>)
    requires
        agree_for(b, t1, t2),
    ensures
        first_prey(b, t1) == first_prey(b, t2),
    decreases t1.len(),
{
    if t1.len() > 0 {
        let (u1, u2) = (t1.drop_first(), t2.drop_first());
        assert forall|k: int| 0 <= k < u1.len() implies u1[k] == u2[k] || (!is_neighbor(
            b,
            #[trigger] u1[k],
        ) && !is_neighbor(b, u2[k])) by {
            assert(u1[k] == t1[k + 1] && u2[k] == t2[k + 1]);
        }
        lemma_agree_first_prey(b, u1, u2);
        assert(t1[0] == t2[0] || (!is_neighbor(b, t1[0]) && !is_neighbor(b, t2[0])));
    }
}

/// Among the predators of `t`, the neighbours of `b` are the predator
/// neighbours of `b` in `t`.
proof fn lemma_predators_sums(b: Boid, t: Seq<Boid>, term: spec_fn(Boid) -> (int, int))
    ensures
        count_where(predators(t), neighbor_of(b)) == count_where(t, predator_neighbor_of(b)),
        sum_where(predators(t), neighbor_of(b), term) == sum_where(t, predator_neighbor_of(b), term),
    decreases t.len(),
{
    if t.len() > 0 {
        let u = t.drop_last();
        lemma_predators_sums(b, u, term);
        if t.last().boid_type == BoidType::Predator {
            let p = predators(u);
            assert(p.push(t.last()).drop_last() =~= p);
            assert(p.push(t.last()).last() == t.last());
        }
    }
}

proof fn lemma_agree_step(b: Boid, t1: Seq<Boid>, t2: Seq<Boid>, w: Weights, win: WinSize)
    requires
        agree_for(b, t1, t2),
    ensures
        step(b, t1, w, win) == step(b, t2, w, win),
{
    lemma_agree_sums(b, t1, t2, neighbor_of(b), velocity_of());
    lemma_agree_sums(b, t1, t2, neighbor_of(b), position_of());
    lemma_agree_sums(b, t1, t2, neighbor_of(b), push_from(b, FINE as int, 1));
    lemma_agree_sums(b, t1, t2, predator_neighbor_of(b), push_from(b, FINE as int, 1));
    lemma_agree_sums(b, t1, t2, predator_neighbor_of(b), push_from(b, w.flee as int, PER_MILLE as int));
    lemma_agree_first_prey(b, t1, t2);
    lemma_predators_sums(b, t1, push_from(b, FINE as int, 1));
    lemma_predators_sums(b, t2, push_from(b, FINE as int, 1));
    assert(raw_steering(b, t1, w) == raw_steering(b, t2, w));
}

/// An agent is never its own neighbour, and an agent that is not a
/// neighbour of agent `i` (at its very position, or at or beyond its
/// perception radius) has no effect on `i`'s tick: replacing it, at any index
/// of the store, by another such agent leaves `i`'s new state unchanged.
pub proof fn law_non_neighbor_ignored(
    s1: Seq<Boid>,
    s2: Seq<Boid>,
    i: int,
    j: int,
    w: Weights,
    win: WinSize,
)
    requires
        s1.len() == s2.len(),
        0 <= i < s1.len(),
        0 <= j < s1.len(),
        i != j,
        forall|k: int| 0 <= k < s1.len() && k != j ==> s1[k] == s2[k],
        !is_neighbor(s1[i], s1[j]),
        !is_neighbor(s1[i], s2[j]),
    ensures
        !is_neighbor(s1[i], s1[i]),
        tick(s1, w, win)[i] == tick(s2, w, win)[i],
{
    let b = s1[i];
    let t1 = others(s1, i);
    let t2 = others(s2, i);
    assert forall|k: int| 0 <= k < t1.len() implies t1[k] == t2[k] || (!is_neighbor(
        b,
        #[trigger] t1[k],
    ) && !is_neighbor(b, t2[k])) by {
        if k < i {
            assert(t1[k] == s1[k] && t2[k] == s2[k]);
        } else {
            assert(t1[k] == s1[k + 1] && t2[k] == s2[k + 1]);
        }
    }
    lemma_agree_step(b, t1, t2, w, win);
}

/// When the position after integration lies beyond an edge of the plane, the
/// agent lands on the opposite edge; otherwise it stays where it moved.
pub proof fn law_wrap_to_opposite_edge(b: Boid, s: Seq<Boid>, w: Weights, win: WinSize)
    requires
        win.wf(),
    ensures
        ({
            let p = unwrapped_position(b, s, w);
            let r = step(b, s, w, win);
            &&& p.0 > win.w / 2 ==> r.position.x == -(win.w / 2)
            &&& p.0 < -(win.w / 2) ==> r.position.x == win.w / 2
            &&& -(win.w / 2) <= p.0 <= win.w / 2 ==> r.position.x == p.0
            &&& p.1 > win.h / 2 ==> r.position.y == -(win.h / 2)
            &&& p.1 < -(win.h / 2) ==> r.position.y == win.h / 2
            &&& -(win.h / 2) <= p.1 <= win.h / 2 ==> r.position.y == p.1
        }),
{
}

/// With two agents, swapping their order in the store swaps their new states
/// and changes neither.
pub proof fn law_swap_two(a: Boid, b: Boid, w: Weights, win: WinSize)
    ensures
        tick(seq![a, b], w, win)[0] == tick(seq![b, a], w, win)[1],
        tick(seq![a, b], w, win)[1] == tick(seq![b, a], w, win)[0],
{
    let ab = seq![a, b];
    let ba = seq![b, a];
    assert(others(ab, 0) =~= seq![b]);
    assert(others(ab, 1) =~= seq![a]);
    assert(others(ba, 0) =~= seq![a]);
    assert(others(ba, 1) =~= seq![b]);
}

proof fn lemma_none_kept(s: Seq<Boid>, keep: spec_fn(Boid) -> bool, term: spec_fn(Boid) -> (int, int))
    requires
        forall|j: int| 0 <= j < s.len() ==> !keep(#[trigger] s[j]),
    ensures
        count_where(s, keep) == 0,
        sum_where(s, keep, term) == zero(),
    decreases s.len(),
{
    if s.len() > 0 {
        let t = s.drop_last();
        assert forall|j: int| 0 <= j < t.len() implies !keep(#[trigger] t[j]) by {
            assert(t[j] == s[j]);
        }
        lemma_none_kept(t, keep, term);
        assert(!keep(s[s.len() - 1]));
    }
}

proof fn lemma_no_first_prey(b: Boid, s: Seq<Boid>)
    requires
        forall|j: int| 0 <= j < s.len() ==> !is_neighbor(b, #[trigger] s[j]),
    ensures
        first_prey(b, s) == None::<Boid>,
    decreases s.len(),
{
    if s.len() > 0 {
        let t = s.drop_first();
        assert forall|j: int| 0 <= j < t.len() implies !is_neighbor(b, #[trigger] t[j]) by {
            assert(t[j] == s[j + 1]);
        }
        lemma_no_first_prey(b, t);
        assert(!is_neighbor(b, s[0]));
    }
}

proof fn lemma_predators_not_neighbors(b: Boid, s: Seq<Boid>)
    requires
        forall|j: int| 0 <= j < s.len() ==> !is_neighbor(b, #[trigger] s[j]),
    ensures
        forall|j: int| 0 <= j < predators(s).len() ==> !is_neighbor(b, #[trigger] predators(s)[j]),
    decreases s.len(),
{
    if s.len() > 0 {
        let t = s.drop_last();
        assert forall|j: int| 0 <= j < t.len() implies !is_neighbor(b, #[trigger] t[j]) by {
            assert(t[j] == s[j]);
        }
        lemma_predators_not_neighbors(b, t);
        assert(!is_neighbor(b, s[s.len() - 1]));
        let p = predators(t);
        if s.last().boid_type == BoidType::Predator {
            assert forall|j: int| 0 <= j < p.push(s.last()).len() implies !is_neighbor(
                b,
                #[trigger] p.push(s.last())[j],
            ) by {
                if j < p.len() {
                    assert(p.push(s.last())[j] == p[j]);
                }
            }
        }
    }
}

/// An agent with no neighbour steers with zero force: a lone predator neither
/// chases nor keeps apart, and a lone prey neither flees nor flocks.
pub proof fn law_lone_agent_still(b: Boid, s: Seq<Boid>, w: Weights)
    requires
        forall|j: int| 0 <= j < s.len() ==> !is_neighbor(b, #[trigger] s[j]),
    ensures
        raw_steering(b, s, w) == zero(),
        steering_of(b, s, w) == zero(),
        alignment_of(b, s, w.alignment as int) == zero(),
        cohesion_of(b, s, w.cohesion as int) == zero(),
        separation_of(b, s, w.separation as int) == zero(),
        flee_of(b, s, w.flee as int) == zero(),
        chase_of(b, s, w.chase as int) == zero(),
        separation_of(b, predators(s), w.separation as int) == zero(),
{
    lemma_none_kept(s, neighbor_of(b), velocity_of());
    lemma_none_kept(s, neighbor_of(b), position_of());
    lemma_none_kept(s, neighbor_of(b), push_from(b, FINE as int, 1));
    lemma_none_kept(s, predator_neighbor_of(b), push_from(b, w.flee as int, PER_MILLE as int));
    lemma_no_first_prey(b, s);
    lemma_predators_not_neighbors(b, s);
    lemma_none_kept(predators(s), neighbor_of(b), push_from(b, FINE as int, 1));
    let m = b.max_force as int;
    assert(m * m >= 0) by (nonlinear_arith);
    assert(raw_steering(b, s, w) == zero());
    assert(len_sq(0, 0) == 0);
}

/// The steering an agent adds to its acceleration is never longer than its
/// largest force.
pub proof fn law_force_bound(b: Boid, s: Seq<Boid>, w: Weights)
    requires
        b.max_force >= 0,
    ensures
        len_sq(steering_of(b, s, w).0, steering_of(b, s, w).1) <= b.max_force * b.max_force,
{
    let r = raw_steering(b, s, w);
    lemma_clamp_len_bound(r.0, r.1, b.max_force as int);
}

/// For an agent that starts the tick with no acceleration and whose speed
/// clamp does not act, the change of velocity is exactly its steering, and so
/// never longer than its largest force.
pub proof fn law_unclamped_velocity_change(b: Boid, s: Seq<Boid>, w: Weights)
    requires
        b.max_force >= 0,
        b.acceleration == (Vec2 { x: 0, y: 0 }),
        len_sq(
            b.velocity.x + steering_of(b, s, w).0,
            b.velocity.y + steering_of(b, s, w).1,
        ) <= b.max_speed * b.max_speed,
    ensures
        next_velocity(b, s, w) == (
            b.velocity.x + steering_of(b, s, w).0,
            b.velocity.y + steering_of(b, s, w).1,
        ),
        len_sq(
            next_velocity(b, s, w).0 - b.velocity.x,
            next_velocity(b, s, w).1 - b.velocity.y,
        ) <= b.max_force * b.max_force,
{
    law_force_bound(b, s, w);
}

} // verus!
