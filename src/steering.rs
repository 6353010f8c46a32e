//! The five steering behaviours, each a function of a focal agent and the
//! agents it may perceive.
use vstd::prelude::*;
use crate::vector::{Vec2, SCALE, abs, len_sq, lemma_tdiv, scale_to, scale_to_exec, tdiv, div_toward_zero, zero};
use crate::boid::{Boid, BoidType, Weights, COORD_MAX, MAX_AGENTS, PER_MILLE, all_wf};

verus! {

/// Squared distance between the positions of `a` and `b`.
pub open spec fn dist_sq(a: Boid, b: Boid) -> int {
    len_sq(a.position.x - b.position.x, a.position.y - b.position.y)
}

/// `o` is a neighbour of `b`: strictly closer than `b`'s perception radius, and
/// not at the very same position.
pub open spec fn is_neighbor(b: Boid, o: Boid) -> bool {
    0 < dist_sq(b, o) < b.perception_radius * b.perception_radius
}

pub open spec fn neighbor_of(b: Boid) -> spec_fn(Boid) -> bool {
    |o: Boid| is_neighbor(b, o)
}

pub open spec fn predator_neighbor_of(b: Boid) -> spec_fn(Boid) -> bool {
    |o: Boid| is_neighbor(b, o) && o.boid_type == BoidType::Predator
}

/// How many agents of `s` satisfy `keep`.
pub open spec fn count_where(s: Seq<Boid>, keep: spec_fn(Boid) -> bool) -> int
    decreases s.len(),
{
    if s.len() == 0 {
        0
    } else {
        count_where(s.drop_last(), keep) + if keep(s.last()) { 1int } else { 0 }
    }
}

/// Sum of `term` over the agents of `s` that satisfy `keep`.
pub open spec fn sum_where(
    s: Seq<Boid>,
    keep: spec_fn(Boid) -> bool,
    term: spec_fn(Boid) -> (int, int),
) -> (int, int)
    decreases s.len(),
{
    if s.len() == 0 {
        zero()
    } else {
        let p = sum_where(s.drop_last(), keep, term);
        if keep(s.last()) {
            (p.0 + term(s.last()).0, p.1 + term(s.last()).1)
        } else {
            p
        }
    }
}

pub open spec fn velocity_of() -> spec_fn(Boid) -> (int, int) {
    |o: Boid| (o.velocity.x as int, o.velocity.y as int)
}

pub open spec fn position_of() -> spec_fn(Boid) -> (int, int) {
    |o: Boid| (o.position.x as int, o.position.y as int)
}

/// The push that `o` gives `b`, times `num / den`: the unit vector from `o`
/// to `b` divided by their distance, in sub-units, scaled before it is
/// rounded toward zero, so that it is rounded once.
pub open spec fn push(b: Boid, o: Boid, num: int, den: int) -> (int, int) {
    let d2 = dist_sq(b, o);
    (
        tdiv((b.position.x - o.position.x) * SCALE * SCALE * num, d2 * den),
        tdiv((b.position.y - o.position.y) * SCALE * SCALE * num, d2 * den),
    )
}

pub open spec fn push_from(b: Boid, num: int, den: int) -> spec_fn(Boid) -> (int, int) {
    |o: Boid| push(b, o, num, den)
}

/// Resolution of the pushes that separation sums: `FINE`-ths of a sub-unit.
pub const FINE: i128 = 0x10_0000;

/// `c` scaled by a weight given in thousandths, rounded toward zero.
pub open spec fn weigh(c: int, w: int) -> int {
    tdiv(c * w, PER_MILLE as int)
}

/// Desired velocity `(dx, dy)` minus the current one, weighted by `w`.
pub open spec fn correction(b: Boid, d: (int, int), w: int) -> (int, int) {
    (weigh(d.0 - b.velocity.x, w), weigh(d.1 - b.velocity.y, w))
}

/// Steer toward the average velocity of the neighbours.
pub open spec fn alignment_of(b: Boid, s: Seq<Boid>, w: int) -> (int, int) {
    let n = count_where(s, neighbor_of(b));
    if n == 0 {
        zero()
    } else {
        let t = sum_where(s, neighbor_of(b), velocity_of());
        correction(b, scale_to(tdiv(t.0, n), tdiv(t.1, n), b.max_speed as int), w)
    }
}

/// Steer toward the average position of the neighbours.
pub open spec fn cohesion_of(b: Boid, s: Seq<Boid>, w: int) -> (int, int) {
    let n = count_where(s, neighbor_of(b));
    if n == 0 {
        zero()
    } else {
        let t = sum_where(s, neighbor_of(b), position_of());
        correction(
            b,
            scale_to(
                tdiv(t.0, n) - b.position.x,
                tdiv(t.1, n) - b.position.y,
                b.max_speed as int,
            ),
            w,
        )
    }
}

/// Steer away from the neighbours, the closer ones pushing harder: the
/// pushes, each taken in `FINE`-ths of a sub-unit and rounded once, are summed
/// (their sum points where their average does) and rescaled to the top speed.
pub open spec fn separation_of(b: Boid, s: Seq<Boid>, w: int) -> (int, int) {
    let n = count_where(s, neighbor_of(b));
    if n == 0 {
        zero()
    } else {
        let t = sum_where(s, neighbor_of(b), push_from(b, FINE as int, 1));
        correction(b, scale_to(t.0, t.1, b.max_speed as int), w)
    }
}

/// Sum of the pushes of all predator neighbours, each weighted by `w`
/// thousandths before it is rounded, so that each is rounded once.
pub open spec fn flee_of(b: Boid, s: Seq<Boid>, w: int) -> (int, int) {
    sum_where(s, predator_neighbor_of(b), push_from(b, w, PER_MILLE as int))
}

/// The first prey neighbour of `b` in the order of `s`.
pub open spec fn first_prey(b: Boid, s: Seq<Boid>) -> Option<Boid>
    decreases s.len(),
{
    if s.len() == 0 {
        None
    } else if is_neighbor(b, s[0]) && s[0].boid_type == BoidType::Prey {
        Some(s[0])
    } else {
        first_prey(b, s.drop_first())
    }
}

/// Steer toward the first prey neighbour, if there is one.
pub open spec fn chase_of(b: Boid, s: Seq<Boid>, w: int) -> (int, int) {
    match first_prey(b, s) {
        None => zero(),
        Some(o) => correction(
            b,
            scale_to(
                o.position.x - b.position.x,
                o.position.y - b.position.y,
                b.max_speed as int,
            ),
            w,
        ),
    }
}

/// Bound on each component of the alignment, cohesion, separation and chase
/// forces.
pub const STEER_MAX: i128 = 0x1_0000_0000_0000;

/// Bound on each component of the flee force.
pub const FLEE_MAX: i128 = 0x800_0000_0000_0000;

proof fn lemma_prefix(s: Seq<Boid>, i: int)
    requires
        0 <= i < s.len(),
    ensures
        s.subrange(0, i + 1).drop_last() == s.subrange(0, i),
        s.subrange(0, i + 1).last() == s[i],
        all_wf(s) ==> all_wf(s.subrange(0, i)),
{
    assert(s.subrange(0, i + 1).drop_last() =~= s.subrange(0, i));
}

proof fn lemma_sum_bound(
    s: Seq<Boid>,
    keep: spec_fn(Boid) -> bool,
    term: spec_fn(Boid) -> (int, int),
    bound: int,
)
    requires
        bound >= 0,
        all_wf(s),
        forall|o: Boid|
            o.wf() && #[trigger] keep(o) ==> abs(term(o).0) <= bound && abs(term(o).1) <= bound,
    ensures
        0 <= count_where(s, keep) <= s.len(),
        abs(sum_where(s, keep, term).0) <= count_where(s, keep) * bound,
        abs(sum_where(s, keep, term).1) <= count_where(s, keep) * bound,
    decreases s.len(),
{
    if s.len() > 0 {
        let t = s.drop_last();
        assert(all_wf(t)) by {
            assert forall|i: int| 0 <= i < t.len() implies #[trigger] t[i].wf() by {
                assert(t[i] == s[i]);
            }
        }
        lemma_sum_bound(t, keep, term, bound);
        let c = count_where(t, keep);
        assert(s.last().wf()) by {
            assert(s[s.len() - 1].wf());
        }
        assert((c + 1) * bound == c * bound + bound) by (nonlinear_arith);
    }
}

proof fn lemma_average(a: int, n: int, c: int)
    requires
        n > 0,
        c >= 0,
        abs(a) <= n * c,
    ensures
        abs(tdiv(a, n)) <= c,
{
    let q = abs(tdiv(a, n));
    lemma_tdiv(a, n);
    assert(q <= c) by (nonlinear_arith)
        requires
            n > 0,
            q * n <= abs(a),
            abs(a) <= n * c,
    ;
}

/// Bound on each component of one push as flee and separation take it.
pub const PUSH_MAX: i128 = 0x80_0000_0000;

/// A neighbour's push, times `num / den`, is at most `PUSH_MAX` on each axis.
proof fn lemma_push_bound(b: Boid, o: Boid, num: int, den: int)
    requires
        b.wf(),
        o.wf(),
        is_neighbor(b, o),
        num >= 0,
        den >= 1,
        SCALE * SCALE * num <= PUSH_MAX * den,
    ensures
        abs(push(b, o, num, den).0) <= PUSH_MAX,
        abs(push(b, o, num, den).1) <= PUSH_MAX,
{
    let dx = b.position.x - o.position.x;
    let dy = b.position.y - o.position.y;
    let d2 = dist_sq(b, o);
    let k = SCALE * SCALE * num;
    assert(abs(dx) <= d2 && abs(dy) <= d2) by (nonlinear_arith)
        requires
            d2 == dx * dx + dy * dy,
    ;
    assert(d2 * den > 0) by (nonlinear_arith)
        requires
            d2 > 0,
            den >= 1,
    ;
    assert(dx * SCALE * SCALE * num == dx * k && dy * SCALE * SCALE * num == dy * k) by (nonlinear_arith)
        requires
            k == SCALE * SCALE * num,
    ;
    lemma_tdiv(dx * k, d2 * den);
    lemma_tdiv(dy * k, d2 * den);
    let qx = abs(tdiv(dx * k, d2 * den));
    let qy = abs(tdiv(dy * k, d2 * den));
    assert(qx <= PUSH_MAX) by (nonlinear_arith)
        requires
            d2 > 0,
            den >= 1,
            k >= 0,
            qx * (d2 * den) <= abs(dx * k),
            abs(dx) <= d2,
            k <= PUSH_MAX * den,
    ;
    assert(qy <= PUSH_MAX) by (nonlinear_arith)
        requires
            d2 > 0,
            den >= 1,
            k >= 0,
            qy * (d2 * den) <= abs(dy * k),
            abs(dy) <= d2,
            k <= PUSH_MAX * den,
    ;
}

proof fn lemma_weigh_bound(c: int, w: int, bound: int)
    requires
        abs(c) <= bound,
        0 <= w <= u32::MAX,
    ensures
        abs(weigh(c, w)) * PER_MILLE <= bound * u32::MAX,
{
    lemma_tdiv(c * w, PER_MILLE as int);
    assert(abs(c * w) <= bound * u32::MAX) by (nonlinear_arith)
        requires
            abs(c) <= bound,
            0 <= w <= u32::MAX,
    ;
}

/// `c` weighted by `w` thousandths.
fn weigh_exec(c: i128, w: u32) -> (r: i128)
    requires
        abs(c as int) <= 0x100_0000_0000,
    ensures
        r == weigh(c as int, w as int),
{
    proof {
        assert(abs(c * w) <= 0x100_0000_0000 * u32::MAX) by (nonlinear_arith)
            requires
                abs(c as int) <= 0x100_0000_0000,
                0 <= w <= u32::MAX,
        ;
    }
    div_toward_zero(c * (w as i128), PER_MILLE)
}

/// Desired velocity `d` minus the agent's current one, weighted by `w`.
fn correction_exec(b: &Boid, d: Vec2, w: u32) -> (r: Vec2)
    requires
        b.wf(),
        abs(d.x as int) <= COORD_MAX,
        abs(d.y as int) <= COORD_MAX,
    ensures
        (r.x as int, r.y as int) == correction(*b, (d.x as int, d.y as int), w as int),
        abs(r.x as int) <= STEER_MAX,
        abs(r.y as int) <= STEER_MAX,
{
    let cx = d.x as i128 - b.velocity.x as i128;
    let cy = d.y as i128 - b.velocity.y as i128;
    proof {
        lemma_weigh_bound(cx as int, w as int, 2 * COORD_MAX);
        lemma_weigh_bound(cy as int, w as int, 2 * COORD_MAX);
    }
    let rx = weigh_exec(cx, w);
    let ry = weigh_exec(cy, w);
    Vec2 { x: rx as i64, y: ry as i64 }
}

/// Whether `o` is a neighbour of `b`.
pub fn is_neighbor_exec(b: &Boid, o: &Boid) -> (r: bool)
    requires
        b.wf(),
        o.wf(),
    ensures
        r == is_neighbor(*b, *o),
{
    let dx = b.position.x as i128 - o.position.x as i128;
    let dy = b.position.y as i128 - o.position.y as i128;
    let rad = b.perception_radius as i128;
    proof {
        assert(0 <= dx * dx <= 0x1_0000_0000_0000_0000 && 0 <= dy * dy <= 0x1_0000_0000_0000_0000) by (nonlinear_arith)
            requires
                abs(dx as int) <= 2 * COORD_MAX,
                abs(dy as int) <= 2 * COORD_MAX,
        ;
        assert(0 <= rad * rad <= 0x1_0000_0000_0000_0000) by (nonlinear_arith)
            requires
                0 <= rad <= COORD_MAX,
        ;
    }
    let d2 = dx * dx + dy * dy;
    0 < d2 && d2 < rad * rad
}

pub open spec fn state_of(positions: bool) -> spec_fn(Boid) -> (int, int) {
    if positions {
        position_of()
    } else {
        velocity_of()
    }
}

pub open spec fn pushers_of(b: Boid, predators_only: bool) -> spec_fn(Boid) -> bool {
    if predators_only {
        predator_neighbor_of(b)
    } else {
        neighbor_of(b)
    }
}

/// Number of neighbours of `boid`, and the sum of their positions (or
/// velocities).
fn neighbor_sums(boids: &[Boid], boid: &Boid, positions: bool) -> (r: (i128, i128, i128))
    requires
        boid.wf(),
        all_wf(boids@),
        boids@.len() <= MAX_AGENTS,
    ensures
        r.0 == count_where(boids@, neighbor_of(*boid)),
        (r.1 as int, r.2 as int) == sum_where(boids@, neighbor_of(*boid), state_of(positions)),
        0 <= r.0 <= boids@.len(),
        abs(r.1 as int) <= r.0 * COORD_MAX,
        abs(r.2 as int) <= r.0 * COORD_MAX,
{
    let ghost keep = neighbor_of(*boid);
    let ghost term = state_of(positions);
    assert forall|o: Boid| o.wf() && #[trigger] keep(o) implies abs(term(o).0) <= COORD_MAX
        && abs(term(o).1) <= COORD_MAX by {}
    let mut count: i128 = 0;
    let mut sx: i128 = 0;
    let mut sy: i128 = 0;
    let mut i: usize = 0;
    while i < boids.len()
        invariant
            i <= boids@.len() <= MAX_AGENTS,
            boid.wf(),
            all_wf(boids@),
            keep == neighbor_of(*boid),
            term == state_of(positions),
            forall|o: Boid| o.wf() && #[trigger] keep(o) ==> abs(term(o).0) <= COORD_MAX
                && abs(term(o).1) <= COORD_MAX,
            count == count_where(boids@.subrange(0, i as int), keep),
            (sx as int, sy as int) == sum_where(boids@.subrange(0, i as int), keep, term),
        decreases boids@.len() - i,
    {
        proof {
            lemma_prefix(boids@, i as int);
            lemma_sum_bound(boids@.subrange(0, i as int), keep, term, COORD_MAX as int);
            assert(count * COORD_MAX <= MAX_AGENTS * COORD_MAX) by (nonlinear_arith)
                requires
                    0 <= count <= MAX_AGENTS,
            ;
            assert(boids@[i as int].wf());
        }
        let other = &boids[i];
        if is_neighbor_exec(boid, other) {
            let v = if positions {
                other.position
            } else {
                other.velocity
            };
            sx = sx + v.x as i128;
            sy = sy + v.y as i128;
            count = count + 1;
        }
        i = i + 1;
    }
    proof {
        assert(boids@.subrange(0, boids@.len() as int) =~= boids@);
        lemma_sum_bound(boids@, keep, term, COORD_MAX as int);
    }
    (count, sx, sy)
}

/// Number of pushing neighbours of `boid` (all of them, or the predators
/// only), and the sum of their pushes times `num / den`.
fn push_sums(boids: &[Boid], boid: &Boid, predators_only: bool, num: i128, den: i128) -> (r: (
    i128,
    i128,
    i128,
))
    requires
        boid.wf(),
        all_wf(boids@),
        boids@.len() <= MAX_AGENTS,
        0 <= num <= u32::MAX,
        1 <= den <= PER_MILLE,
        SCALE * SCALE * num <= PUSH_MAX * den,
    ensures
        r.0 == count_where(boids@, pushers_of(*boid, predators_only)),
        (r.1 as int, r.2 as int) == sum_where(
            boids@,
            pushers_of(*boid, predators_only),
            push_from(*boid, num as int, den as int),
        ),
        0 <= r.0 <= boids@.len(),
        abs(r.1 as int) <= r.0 * PUSH_MAX,
        abs(r.2 as int) <= r.0 * PUSH_MAX,
{
    let ghost keep = pushers_of(*boid, predators_only);
    let ghost term = push_from(*boid, num as int, den as int);
    assert forall|o: Boid| o.wf() && #[trigger] keep(o) implies abs(term(o).0) <= PUSH_MAX && abs(
        term(o).1,
    ) <= PUSH_MAX by {
        lemma_push_bound(*boid, o, num as int, den as int);
    }
    let mut count: i128 = 0;
    let mut sx: i128 = 0;
    let mut sy: i128 = 0;
    let mut i: usize = 0;
    while i < boids.len()
        invariant
            i <= boids@.len() <= MAX_AGENTS,
            boid.wf(),
            all_wf(boids@),
            0 <= num <= u32::MAX,
            1 <= den <= PER_MILLE,
            SCALE * SCALE * num <= PUSH_MAX * den,
            keep == pushers_of(*boid, predators_only),
            term == push_from(*boid, num as int, den as int),
            forall|o: Boid| o.wf() && #[trigger] keep(o) ==> abs(term(o).0) <= PUSH_MAX && abs(
                term(o).1,
            ) <= PUSH_MAX,
            count == count_where(boids@.subrange(0, i as int), keep),
            (sx as int, sy as int) == sum_where(boids@.subrange(0, i as int), keep, term),
        decreases boids@.len() - i,
    {
        proof {
            lemma_prefix(boids@, i as int);
            lemma_sum_bound(boids@.subrange(0, i as int), keep, term, PUSH_MAX as int);
            assert(count * PUSH_MAX <= MAX_AGENTS * PUSH_MAX) by (nonlinear_arith)
                requires
                    0 <= count <= MAX_AGENTS,
            ;
            assert(boids@[i as int].wf());
        }
        let other = &boids[i];
        let counts = is_neighbor_exec(boid, other) && (!predators_only || other.boid_type
            == BoidType::Predator);
        if counts {
            proof {
                lemma_push_bound(*boid, *other, num as int, den as int);
            }
            let dx = boid.position.x as i128 - other.position.x as i128;
            let dy = boid.position.y as i128 - other.position.y as i128;
            let ss = (SCALE as i128) * (SCALE as i128);
            proof {
                assert(0 <= dx * dx <= 0x1_0000_0000_0000_0000 && 0 <= dy * dy
                    <= 0x1_0000_0000_0000_0000) by (nonlinear_arith)
                    requires
                        abs(dx as int) <= 2 * COORD_MAX,
                        abs(dy as int) <= 2 * COORD_MAX,
                ;
                assert(abs(dx * ss * num) <= 0x200_0000 * 0x1_0000 * 0x1_0000_0000 && abs(dy * ss
                    * num) <= 0x200_0000 * 0x1_0000 * 0x1_0000_0000) by (nonlinear_arith)
                    requires
                        abs(dx as int) <= 2 * COORD_MAX,
                        abs(dy as int) <= 2 * COORD_MAX,
                        ss == 0x1_0000,
                        0 <= num <= u32::MAX,
                ;
                assert((dx * dx + dy * dy) * den <= 0x2_0000_0000_0000_0000 * 1000) by (nonlinear_arith)
                    requires
                        0 <= dx * dx <= 0x1_0000_0000_0000_0000,
                        0 <= dy * dy <= 0x1_0000_0000_0000_0000,
                        1 <= den <= 1000,
                ;
                assert((dx * dx + dy * dy) * den > 0) by (nonlinear_arith)
                    requires
                        dx * dx + dy * dy > 0,
                        1 <= den,
                ;
            }
            let d2 = dx * dx + dy * dy;
            let px = div_toward_zero(dx * ss * num, d2 * den);
            let py = div_toward_zero(dy * ss * num, d2 * den);
            sx = sx + px;
            sy = sy + py;
            count = count + 1;
        }
        i = i + 1;
    }
    proof {
        assert(boids@.subrange(0, boids@.len() as int) =~= boids@);
        lemma_sum_bound(boids@, keep, term, PUSH_MAX as int);
    }
    (count, sx, sy)
}

/// Steer toward the average velocity of the neighbours: that average
/// rescaled to the agent's top speed, minus its current velocity, weighted.
pub fn alignment(boids: &[Boid], boid: &Boid, weights: &Weights) -> (r: Vec2)
    requires
        boid.wf(),
        all_wf(boids@),
        boids@.len() <= MAX_AGENTS,
    ensures
        (r.x as int, r.y as int) == alignment_of(*boid, boids@, weights.alignment as int),
        abs(r.x as int) <= STEER_MAX,
        abs(r.y as int) <= STEER_MAX,
{
    let (n, sx, sy) = neighbor_sums(boids, boid, false);
    if n == 0 {
        return Vec2 { x: 0, y: 0 };
    }
    proof {
        lemma_average(sx as int, n as int, COORD_MAX as int);
        lemma_average(sy as int, n as int, COORD_MAX as int);
    }
    let ax = div_toward_zero(sx, n);
    let ay = div_toward_zero(sy, n);
    let d = scale_to_exec(Vec2 { x: ax as i64, y: ay as i64 }, boid.max_speed);
    correction_exec(boid, d, weights.alignment)
}

/// Steer toward the average position of the neighbours: the way there
/// rescaled to the agent's top speed, minus its current velocity, weighted.
pub fn cohesion(boids: &[Boid], boid: &Boid, weights: &Weights) -> (r: Vec2)
    requires
        boid.wf(),
        all_wf(boids@),
        boids@.len() <= MAX_AGENTS,
    ensures
        (r.x as int, r.y as int) == cohesion_of(*boid, boids@, weights.cohesion as int),
        abs(r.x as int) <= STEER_MAX,
        abs(r.y as int) <= STEER_MAX,
{
    let (n, sx, sy) = neighbor_sums(boids, boid, true);
    if n == 0 {
        return Vec2 { x: 0, y: 0 };
    }
    proof {
        lemma_average(sx as int, n as int, COORD_MAX as int);
        lemma_average(sy as int, n as int, COORD_MAX as int);
    }
    let ax = div_toward_zero(sx, n) - boid.position.x as i128;
    let ay = div_toward_zero(sy, n) - boid.position.y as i128;
    let d = scale_to_exec(Vec2 { x: ax as i64, y: ay as i64 }, boid.max_speed);
    correction_exec(boid, d, weights.cohesion)
}

/// Steer away from the neighbours: the sum of their pushes (which points
/// where their average does) rescaled to the agent's top speed, minus its
/// current velocity, weighted.
pub fn separation(boids: &[Boid], boid: &Boid, weights: &Weights) -> (r: Vec2)
    requires
        boid.wf(),
        all_wf(boids@),
        boids@.len() <= MAX_AGENTS,
    ensures
        (r.x as int, r.y as int) == separation_of(*boid, boids@, weights.separation as int),
        abs(r.x as int) <= STEER_MAX,
        abs(r.y as int) <= STEER_MAX,
{
    let (n, sx, sy) = push_sums(boids, boid, false, FINE, 1);
    if n == 0 {
        return Vec2 { x: 0, y: 0 };
    }
    proof {
        assert(n * PUSH_MAX <= MAX_AGENTS * PUSH_MAX) by (nonlinear_arith)
            requires
                0 <= n <= MAX_AGENTS,
        ;
    }
    let d = scale_to_exec(Vec2 { x: sx as i64, y: sy as i64 }, boid.max_speed);
    correction_exec(boid, d, weights.separation)
}

/// Steer away from the predator neighbours: the sum of their pushes, each
/// weighted before it is rounded, with no speed matching.
pub fn flee(boids: &[Boid], boid: &Boid, weights: &Weights) -> (r: Vec2)
    requires
        boid.wf(),
        all_wf(boids@),
        boids@.len() <= MAX_AGENTS,
    ensures
        (r.x as int, r.y as int) == flee_of(*boid, boids@, weights.flee as int),
        abs(r.x as int) <= FLEE_MAX,
        abs(r.y as int) <= FLEE_MAX,
{
    proof {
        let w = weights.flee as int;
        assert(SCALE * SCALE * w <= PUSH_MAX * PER_MILLE) by (nonlinear_arith)
            requires
                0 <= w <= u32::MAX,
        ;
    }
    let (n, sx, sy) = push_sums(boids, boid, true, weights.flee as i128, PER_MILLE);
    proof {
        assert(n * PUSH_MAX <= MAX_AGENTS * PUSH_MAX) by (nonlinear_arith)
            requires
                0 <= n <= MAX_AGENTS,
        ;
    }
    Vec2 { x: sx as i64, y: sy as i64 }
}

/// Steer toward the first prey neighbour in the order of `boids` (not the
/// nearest one): the way there rescaled to the agent's top speed, minus its
/// current velocity, weighted. Zero when no prey is in range.
pub fn chase(boids: &[Boid], boid: &Boid, weights: &Weights) -> (r: Vec2)
    requires
        boid.wf(),
        all_wf(boids@),
    ensures
        (r.x as int, r.y as int) == chase_of(*boid, boids@, weights.chase as int),
        abs(r.x as int) <= STEER_MAX,
        abs(r.y as int) <= STEER_MAX,
{
    let mut i: usize = 0;
    assert(boids@.subrange(0, boids@.len() as int) =~= boids@);
    while i < boids.len()
        invariant
            i <= boids@.len(),
            boid.wf(),
            all_wf(boids@),
            first_prey(*boid, boids@) == first_prey(*boid, boids@.subrange(i as int, boids@.len() as int)),
        decreases boids@.len() - i,
    {
        let ghost rest = boids@.subrange(i as int, boids@.len() as int);
        proof {
            assert(rest[0] == boids@[i as int]);
            assert(rest.drop_first() =~= boids@.subrange(i + 1, boids@.len() as int));
            assert(boids@[i as int].wf());
        }
        let other = &boids[i];
        if is_neighbor_exec(boid, other) && other.boid_type == BoidType::Prey {
            let dx = other.position.x as i128 - boid.position.x as i128;
            let dy = other.position.y as i128 - boid.position.y as i128;
            let d = scale_to_exec(Vec2 { x: dx as i64, y: dy as i64 }, boid.max_speed);
            return correction_exec(boid, d, weights.chase);
        }
        i = i + 1;
    }
    proof {
        assert(boids@.subrange(i as int, boids@.len() as int).len() == 0);
    }
    Vec2 { x: 0, y: 0 }
}

} // verus!
