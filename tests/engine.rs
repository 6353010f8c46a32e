use boids::boid::{Boid, BoidType, Weights, WinSize};
use boids::steering::{alignment, chase, cohesion, flee, is_neighbor_exec, separation};
use boids::tick::{advance_tick, others_exec, predators_exec, steer, step_boid, wrap_exec};
use boids::vector::{
    ceil_sqrt_exec, clamp_length_max, div_toward_zero, scale_to_exec, Vec2, SCALE,
};

fn weights() -> Weights {
    Weights { alignment: 7000, cohesion: 300, separation: 500, flee: 10_000_000, chase: 1000 }
}

fn win() -> WinSize {
    WinSize { w: 2000 * SCALE, h: 2000 * SCALE }
}

fn v(x: i64, y: i64) -> Vec2 {
    Vec2 { x, y }
}

fn prey(x: i64, y: i64, vx: i64, vy: i64) -> Boid {
    Boid {
        boid_type: BoidType::Prey,
        velocity: v(vx, vy),
        acceleration: v(0, 0),
        max_force: SCALE,
        max_speed: 5 * SCALE,
        perception_radius: 50 * SCALE,
        position: v(x, y),
    }
}

fn predator(x: i64, y: i64, vx: i64, vy: i64) -> Boid {
    Boid {
        boid_type: BoidType::Predator,
        velocity: v(vx, vy),
        acceleration: v(0, 0),
        max_force: 204,
        max_speed: 3 * SCALE,
        perception_radius: 100 * SCALE,
        position: v(x, y),
    }
}

fn len_sq(a: Vec2) -> i128 {
    (a.x as i128) * (a.x as i128) + (a.y as i128) * (a.y as i128)
}

fn dist_sq(a: &Boid, b: &Boid) -> i128 {
    len_sq(v(a.position.x - b.position.x, a.position.y - b.position.y))
}

#[test]
fn two_prey_stay_together_and_within_speed() {
    let mut agents = vec![prey(0, 0, SCALE, 0), prey(10 * SCALE, 0, SCALE, 0)];
    advance_tick(&mut agents, &win(), &weights());
    let r = 50 * SCALE as i128;
    assert!(dist_sq(&agents[0], &agents[1]) <= r * r);
    for a in &agents {
        assert!(len_sq(a.velocity) <= 25 * (SCALE as i128) * (SCALE as i128));
    }
}

#[test]
fn prey_outruns_chasing_predator() {
    let mut agents = vec![predator(0, 0, 0, 0), prey(5 * SCALE, 0, 0, 0)];
    let before = dist_sq(&agents[0], &agents[1]);
    advance_tick(&mut agents, &win(), &weights());
    assert!(dist_sq(&agents[0], &agents[1]) > before);
    assert_eq!(agents[0].position, v(204, 0));
    assert_eq!(agents[1].position, v(5 * SCALE + SCALE, 0));
}

#[test]
fn prey_forces_near_a_predator() {
    let p = prey(5 * SCALE, 0, 0, 0);
    let others = [predator(0, 0, 0, 0)];
    let w = weights();
    assert_eq!(flee(&others, &p, &w), v(512_000, 0));
    assert_eq!(alignment(&others, &p, &w), v(0, 0));
    assert_eq!(cohesion(&others, &p, &w), v(-384, 0));
    assert_eq!(separation(&others, &p, &w), v(640, 0));
    assert_eq!(steer(&others, &p, &w), v(SCALE, 0));
}

#[test]
fn predator_chases_at_top_speed_then_clamps() {
    let h = predator(0, 0, 0, 0);
    let others = [prey(5 * SCALE, 0, 0, 0)];
    let w = weights();
    assert_eq!(chase(&others, &h, &w), v(3 * SCALE, 0));
    assert_eq!(steer(&others, &h, &w), v(204, 0));
}

#[test]
fn alignment_steers_toward_top_speed_along_flock_heading() {
    let a = prey(0, 0, SCALE, 0);
    let others = [prey(10 * SCALE, 0, SCALE, 0)];
    // desired (5, 0) minus current (1, 0), weighted by 7
    assert_eq!(alignment(&others, &a, &weights()), v(28 * SCALE, 0));
}

#[test]
fn chase_targets_first_prey_not_nearest() {
    let h = predator(0, 0, 0, 0);
    let others = [prey(0, 10 * SCALE, 0, 0), prey(2 * SCALE, 0, 0, 0)];
    assert_eq!(chase(&others, &h, &weights()), v(0, 3 * SCALE));
}

#[test]
fn chase_skips_predators_and_far_prey() {
    let h = predator(0, 0, 0, 0);
    let others = [predator(SCALE, 0, 0, 0), prey(200 * SCALE, 0, 0, 0)];
    assert_eq!(chase(&others, &h, &weights()), v(0, 0));
}

#[test]
fn flee_at_five_units_is_weight_over_distance() {
    // 10000 / 5 = 2000 plane units, with no rounding loss
    let p = prey(5 * SCALE, 0, 0, 0);
    let others = [predator(0, 0, 0, 0)];
    assert_eq!(flee(&others, &p, &weights()), v(2000 * SCALE, 0));
}

#[test]
fn separation_keeps_direction_of_small_pushes() {
    // two pushes of 2.56 and 3.2 sub-units, at right angles: the result
    // must point as their sum does, 2.56 : 3.2 = 4 : 5
    let h = Boid { perception_radius: 200 * SCALE, ..predator(0, 0, 0, 0) };
    let others = [predator(100 * SCALE, 0, 0, 0), predator(0, 80 * SCALE, 0, 0)];
    let w = Weights { alignment: 0, cohesion: 0, separation: 1000, flee: 0, chase: 0 };
    let r = separation(&others, &h, &w);
    assert!(r.x < 0 && r.y < 0);
    let (x, y) = (-r.x as i128, -r.y as i128);
    assert!((x * 5 - y * 4).abs() <= 9);
}

#[test]
fn flee_sums_over_predators_only() {
    let p = prey(0, 0, 0, 0);
    let w = Weights { alignment: 0, cohesion: 0, separation: 0, flee: 1000, chase: 0 };
    // each predator one unit away pushes SCALE on its axis; the prey is ignored
    let others = [predator(SCALE, 0, 0, 0), predator(0, SCALE, 0, 0), prey(-SCALE, 0, 0, 0)];
    assert_eq!(flee(&others, &p, &w), v(-SCALE, -SCALE));
}

#[test]
fn separation_pushes_apart_on_x() {
    let a = prey(0, 0, 0, 0);
    let others = [prey(10 * SCALE, 0, 0, 0)];
    assert_eq!(separation(&others, &a, &weights()), v(-640, 0));
}

#[test]
fn cohesion_steers_toward_centroid() {
    let a = prey(0, 0, 0, 0);
    let others = [prey(10 * SCALE, 0, 0, 0), prey(0, 10 * SCALE, 0, 0)];
    let c = cohesion(&others, &a, &weights());
    assert!(c.x > 0 && c.y > 0);
    assert_eq!(c.x, c.y);
}

#[test]
fn speed_stays_bounded_in_a_crowd() {
    let mut agents = vec![
        prey(0, 0, 5 * SCALE, 0),
        prey(SCALE, SCALE, 0, 5 * SCALE),
        prey(-3 * SCALE, 2 * SCALE, -4 * SCALE, 3 * SCALE),
        predator(2 * SCALE, -SCALE, 3 * SCALE, 0),
        predator(-SCALE, -SCALE, 0, -3 * SCALE),
    ];
    for _ in 0..20 {
        advance_tick(&mut agents, &win(), &weights());
        for a in &agents {
            let m = a.max_speed as i128;
            assert!(len_sq(a.velocity) <= m * m);
            assert_eq!(a.acceleration, v(0, 0));
        }
    }
}

#[test]
fn steering_never_exceeds_max_force() {
    let agents = [
        prey(0, 0, 0, 0),
        predator(SCALE, 0, 0, 0),
        predator(0, 1, 0, 0),
        prey(3, 4, SCALE, SCALE),
    ];
    for i in 0..agents.len() {
        let rest = others_exec(&agents, i);
        let f = steer(&rest, &agents[i], &weights());
        let m = agents[i].max_force as i128;
        assert!(len_sq(f) <= m * m);
    }
}

#[test]
fn leaving_right_edge_reenters_on_left() {
    let half = 1000 * SCALE;
    let mut agents = vec![prey(half - 10, 0, SCALE, 0)];
    advance_tick(&mut agents, &win(), &weights());
    assert_eq!(agents[0].position.x, -half);
    let mut agents = vec![prey(0, -half + 10, 0, -SCALE)];
    advance_tick(&mut agents, &win(), &weights());
    assert_eq!(agents[0].position.y, half);
}

#[test]
fn wrap_keeps_inside_and_flips_outside() {
    assert_eq!(wrap_exec(5, 10), 5);
    assert_eq!(wrap_exec(10, 10), 10);
    assert_eq!(wrap_exec(11, 10), -10);
    assert_eq!(wrap_exec(-11, 10), 10);
}

#[test]
fn agent_is_not_its_own_neighbor() {
    let a = prey(0, 0, 0, 0);
    assert!(!is_neighbor_exec(&a, &a));
    assert!(is_neighbor_exec(&a, &prey(SCALE, 0, 0, 0)));
    assert!(!is_neighbor_exec(&a, &prey(50 * SCALE, 0, 0, 0)));
}

#[test]
fn far_and_coincident_agents_are_ignored() {
    let a = prey(0, 0, SCALE, 0);
    let near = prey(3 * SCALE, 0, 0, SCALE);
    let alone = step_boid(&a, &[near], &weights(), &win());
    let far = predator(50 * SCALE, 0, 0, 0);
    let same = predator(0, 0, 0, 0);
    let crowded = step_boid(&a, &[near, far, same], &weights(), &win());
    assert_eq!(alone, crowded);
}

#[test]
fn swapping_two_agents_swaps_results() {
    let a = prey(0, 0, SCALE, 0);
    let b = predator(4 * SCALE, 3 * SCALE, 0, -SCALE);
    let mut ab = vec![a, b];
    let mut ba = vec![b, a];
    advance_tick(&mut ab, &win(), &weights());
    advance_tick(&mut ba, &win(), &weights());
    assert_eq!(ab[0], ba[1]);
    assert_eq!(ab[1], ba[0]);
}

#[test]
fn tick_reads_the_state_before_it() {
    let agents = vec![
        prey(0, 0, SCALE, 0),
        prey(2 * SCALE, 0, 0, SCALE),
        predator(0, 3 * SCALE, 0, 0),
    ];
    let mut next = agents.clone();
    advance_tick(&mut next, &win(), &weights());
    for i in 0..agents.len() {
        let rest = others_exec(&agents, i);
        assert_eq!(next[i], step_boid(&agents[i], &rest, &weights(), &win()));
    }
}

#[test]
fn lone_agents_do_not_steer() {
    let w = weights();
    assert_eq!(steer(&[], &predator(0, 0, SCALE, 0), &w), v(0, 0));
    assert_eq!(steer(&[], &prey(0, 0, SCALE, 0), &w), v(0, 0));
    let far = [prey(500 * SCALE, 0, 0, 0), predator(0, 500 * SCALE, 0, 0)];
    assert_eq!(steer(&far, &predator(0, 0, 0, 0), &w), v(0, 0));
    assert_eq!(steer(&far, &prey(0, 0, 0, 0), &w), v(0, 0));
}

#[test]
fn predators_keep_apart_from_predators_only() {
    let h = predator(0, 0, 0, 0);
    let others = [predator(SCALE, 0, 0, 0), prey(-200 * SCALE, 0, 0, 0)];
    assert_eq!(predators_exec(&others), vec![predator(SCALE, 0, 0, 0)]);
    // separation among predators pushes toward -x; no prey is in range
    assert_eq!(steer(&others, &h, &weights()), v(-204, 0));
}

#[test]
fn empty_store_is_a_no_op() {
    let mut agents: Vec<Boid> = Vec::new();
    advance_tick(&mut agents, &win(), &weights());
    assert!(agents.is_empty());
}

#[test]
fn others_leave_out_one_index() {
    let s = [prey(1, 0, 0, 0), prey(2, 0, 0, 0), prey(3, 0, 0, 0)];
    assert_eq!(others_exec(&s, 1), vec![s[0], s[2]]);
    assert_eq!(others_exec(&s, 0), vec![s[1], s[2]]);
}

#[test]
fn integer_helpers_round_as_stated() {
    assert_eq!(ceil_sqrt_exec(0), 0);
    assert_eq!(ceil_sqrt_exec(10), 4);
    assert_eq!(ceil_sqrt_exec(16), 4);
    assert_eq!(ceil_sqrt_exec(17), 5);
    assert_eq!(div_toward_zero(-7, 2), -3);
    assert_eq!(div_toward_zero(7, 2), 3);
    assert_eq!(scale_to_exec(v(3, 4), 10), v(6, 8));
    assert_eq!(scale_to_exec(v(-3, 4), 10), v(-6, 8));
    assert_eq!(scale_to_exec(v(0, 0), 10), v(0, 0));
    assert_eq!(clamp_length_max(v(30, 40), 5), v(3, 4));
    assert_eq!(clamp_length_max(v(3, 4), 5), v(3, 4));
}
