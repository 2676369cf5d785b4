//! Pairwise gravitational attraction and its accumulation over all bodies.
use vstd::prelude::*;
use vstd::arithmetic::div_mod::{lemma_fundamental_div_mod, lemma_div_basics};
use crate::vector::{Vec3, COORD_LIMIT, dist_sq, isqrt, lemma_isqrt, lemma_dist_sq_nonneg, distance_squared, integer_sqrt, pick};
use crate::body::{Body, G_LIMIT, MASS_LIMIT, mass_to, valid_system, lemma_mass_to_monotone};

verus! {

/// Bound on `d2 * isqrt(d2)` for two in-bounds points.
const DEN_LIMIT: u128 = 63802943797675961899382738893456539648;

/// An acceleration, in fixed-point units per tick squared.
#[derive(Clone, Copy, Debug, PartialEq, Eq, Structural)]
pub struct Accel {
    pub x: i128,
    pub y: i128,
    pub z: i128,
}

impl Accel {
    pub open spec fn get(self, axis: int) -> int {
        pick(axis, self.x as int, self.y as int, self.z as int)
    }
}

/// Component `axis` of the acceleration that `g` and a unit mass at `b` give a
/// body at `a`, before scaling by that mass: `g * delta / (d2 * isqrt(d2))`,
/// rounded toward zero. Coincident points attract each other with no force.
pub open spec fn raw_pull(g: int, a: Vec3, b: Vec3, axis: int) -> int {
    let d2 = dist_sq(a, b);
    let delta = b.get(axis) - a.get(axis);
    if d2 == 0 {
        0
    } else if delta >= 0 {
        (g * delta) / (d2 * isqrt(d2))
    } else {
        -((g * (-delta)) / (d2 * isqrt(d2)))
    }
}

/// Component `axis` of the acceleration body `b` gives body `a`.
pub open spec fn pull(g: int, a: Body, b: Body, axis: int) -> int {
    b.mass * raw_pull(g, a.pos, b.pos, axis)
}

/// What the first `hi` bodies, other than body `k` itself, give body `k`.
pub open spec fn pull_to(g: int, bs: Seq<Body>, k: int, hi: int, axis: int) -> int
    decreases hi,
{
    if hi <= 0 {
        0
    } else {
        pull_to(g, bs, k, hi - 1, axis) + if hi - 1 == k {
            0
        } else {
            pull(g, bs[k], bs[hi - 1], axis)
        }
    }
}

/// Component `axis` of the net acceleration of body `k`.
pub open spec fn accel(g: int, bs: Seq<Body>, k: int, axis: int) -> int {
    pull_to(g, bs, k, bs.len() as int, axis)
}

/// The pull of `b` on `a` is exactly the opposite of the pull of `a` on `b`,
/// component by component, before either is scaled by a mass.
pub proof fn lemma_pull_symmetric(g: int, a: Vec3, b: Vec3, axis: int)
    ensures
        raw_pull(g, b, a, axis) == -raw_pull(g, a, b, axis),
{
    lemma_dist_sq_symmetric(a, b);
    let d2 = dist_sq(a, b);
    let delta = b.get(axis) - a.get(axis);
    let den = d2 * isqrt(d2);
    if d2 != 0 {
        if delta == 0 {
            lemma_symmetric_zero(g, a, b, axis);
            lemma_symmetric_zero(g, b, a, axis);
        } else if delta > 0 {
            assert(raw_pull(g, a, b, axis) == (g * delta) / den);
            assert(raw_pull(g, b, a, axis) == -((g * delta) / den));
        } else {
            assert(raw_pull(g, a, b, axis) == -((g * (-delta)) / den));
            assert(raw_pull(g, b, a, axis) == (g * (-delta)) / den);
        }
    }
}

/// Points that agree on an axis pull each other with no force along it.
proof fn lemma_symmetric_zero(g: int, a: Vec3, b: Vec3, axis: int)
    requires
        b.get(axis) == a.get(axis),
    ensures
        raw_pull(g, a, b, axis) == 0,
{
    let d2 = dist_sq(a, b);
    let delta = b.get(axis) - a.get(axis);
    if d2 != 0 {
        lemma_dist_sq_nonneg(a, b);
        lemma_isqrt(d2);
        let den = d2 * isqrt(d2);
        assert(den > 0) by (nonlinear_arith)
            requires
                d2 >= 1,
                isqrt(d2) >= 1,
                den == d2 * isqrt(d2),
        ;
        assert(g * delta == 0) by (nonlinear_arith)
            requires
                delta == 0,
        ;
        lemma_div_basics(den);
    }
}

/// The squared distance does not depend on the order of the points.
pub proof fn lemma_dist_sq_symmetric(a: Vec3, b: Vec3)
    ensures
        dist_sq(a, b) == dist_sq(b, a),
{
    let (dx, dy, dz) = (b.x - a.x, b.y - a.y, b.z - a.z);
    assert(dx * dx == (-dx) * (-dx)) by (nonlinear_arith);
    assert(dy * dy == (-dy) * (-dy)) by (nonlinear_arith);
    assert(dz * dz == (-dz) * (-dz)) by (nonlinear_arith);
}

/// The raw pull is at most `g` in magnitude.
pub proof fn lemma_raw_pull_bound(g: int, a: Vec3, b: Vec3, axis: int)
    requires
        0 <= g,
    ensures
        -g <= raw_pull(g, a, b, axis) <= g,
{
    let d2 = dist_sq(a, b);
    let delta = b.get(axis) - a.get(axis);
    let m = if delta >= 0 { delta } else { -delta };
    if d2 != 0 && m == 0 {
        lemma_symmetric_zero(g, a, b, axis);
    }
    if d2 != 0 && m != 0 {
        let dx = b.x - a.x;
        let dy = b.y - a.y;
        let dz = b.z - a.z;
        assert(0 <= dx * dx && 0 <= dy * dy && 0 <= dz * dz) by (nonlinear_arith);
        assert(m * m == delta * delta) by (nonlinear_arith)
            requires
                m == delta || m == -delta,
        ;
        assert(delta == dx || delta == dy || delta == dz);
        assert(m * m <= d2);
        let s = isqrt(d2);
        lemma_isqrt(d2);
        let den = d2 * s;
        assert(m <= den && den > 0) by (nonlinear_arith)
            requires
                m >= 1,
                m * m <= d2,
                s >= 1,
                den == d2 * s,
        ;
        let q = (g * m) / den;
        assert(raw_pull(g, a, b, axis) == q || raw_pull(g, a, b, axis) == -q);
        lemma_fundamental_div_mod(g * m, den);
        assert(0 <= q <= g) by (nonlinear_arith)
            requires
                g * m == den * q + (g * m) % den,
                0 <= (g * m) % den < den,
                0 <= g,
                1 <= m <= den,
        ;
    }
}

/// The pull of body `b` on body `a` is at most `g` times the mass of `b`.
pub proof fn lemma_pull_bound(g: int, a: Body, b: Body, axis: int)
    requires
        0 <= g,
    ensures
        -(g * b.mass) <= pull(g, a, b, axis) <= g * b.mass,
{
    lemma_raw_pull_bound(g, a.pos, b.pos, axis);
    let t = raw_pull(g, a.pos, b.pos, axis);
    let m = b.mass as int;
    assert(-(g * m) <= m * t <= g * m) by (nonlinear_arith)
        requires
            -g <= t <= g,
            0 <= m,
    ;
}

/// Partial net pulls are bounded by `g` times the mass that produced them.
pub proof fn lemma_pull_to_bound(g: int, bs: Seq<Body>, k: int, hi: int, axis: int)
    requires
        0 <= g,
        0 <= k < bs.len(),
        0 <= hi <= bs.len(),
    ensures
        -(g * mass_to(bs, hi)) <= pull_to(g, bs, k, hi, axis) <= g * mass_to(bs, hi),
    decreases hi,
{
    if hi > 0 {
        lemma_pull_to_bound(g, bs, k, hi - 1, axis);
        lemma_pull_bound(g, bs[k], bs[hi - 1], axis);
        lemma_mass_to_monotone(bs, 0, hi - 1);
        let m = bs[hi - 1].mass as int;
        assert(g * mass_to(bs, hi) == g * mass_to(bs, hi - 1) + g * m) by (nonlinear_arith)
            requires
                mass_to(bs, hi) == mass_to(bs, hi - 1) + m,
        ;
        assert(0 <= g * m) by (nonlinear_arith)
            requires
                0 <= g,
                0 <= m,
        ;
    }
}

/// What one step of the pairwise pass adds to the two bodies of a pair stays
/// within the bounds of the accumulator.
proof fn lemma_pair_step(g: int, bs: Seq<Body>, i: int, j: int, axis: int)
    requires
        0 <= g <= G_LIMIT,
        valid_system(bs),
        0 <= i < j < bs.len(),
        0 <= axis < 3,
    ensures
        -(g * MASS_LIMIT) <= pull_to(g, bs, i, j + 1, axis) <= g * MASS_LIMIT,
        -(g * MASS_LIMIT) <= pull_to(g, bs, j, i + 1, axis) <= g * MASS_LIMIT,
        pull_to(g, bs, i, j + 1, axis) == pull_to(g, bs, i, j, axis) + bs[j].mass * raw_pull(
            g,
            bs[i].pos,
            bs[j].pos,
            axis,
        ),
        pull_to(g, bs, j, i + 1, axis) == pull_to(g, bs, j, i, axis) - bs[i].mass * raw_pull(
            g,
            bs[i].pos,
            bs[j].pos,
            axis,
        ),
        -(g * MASS_LIMIT) <= bs[i].mass * raw_pull(g, bs[i].pos, bs[j].pos, axis) <= g * MASS_LIMIT,
        -(g * MASS_LIMIT) <= bs[j].mass * raw_pull(g, bs[i].pos, bs[j].pos, axis) <= g * MASS_LIMIT,
{
    let n = bs.len() as int;
    let mt = mass_to(bs, n);
    lemma_mass_to_monotone(bs, j + 1, n);
    lemma_mass_to_monotone(bs, i + 1, n);
    lemma_mass_to_monotone(bs, i, i + 1);
    lemma_mass_to_monotone(bs, j, j + 1);
    lemma_pull_to_bound(g, bs, i, j + 1, axis);
    lemma_pull_to_bound(g, bs, j, i + 1, axis);
    lemma_pull_symmetric(g, bs[i].pos, bs[j].pos, axis);
    lemma_raw_pull_bound(g, bs[i].pos, bs[j].pos, axis);
    assert(g * mass_to(bs, j + 1) <= g * MASS_LIMIT) by (nonlinear_arith)
        requires
            0 <= g,
            mass_to(bs, j + 1) <= mt <= MASS_LIMIT,
    ;
    assert(g * mass_to(bs, i + 1) <= g * MASS_LIMIT) by (nonlinear_arith)
        requires
            0 <= g,
            mass_to(bs, i + 1) <= mt <= MASS_LIMIT,
    ;
    let r = raw_pull(g, bs[i].pos, bs[j].pos, axis);
    let mi = bs[i].mass as int;
    let mj = bs[j].mass as int;
    assert(mi * raw_pull(g, bs[j].pos, bs[i].pos, axis) == -(mi * r)) by (nonlinear_arith)
        requires
            raw_pull(g, bs[j].pos, bs[i].pos, axis) == -r,
    ;
    assert(-(g * MASS_LIMIT) <= mi * r <= g * MASS_LIMIT) by (nonlinear_arith)
        requires
            -g <= r <= g,
            0 <= mi <= MASS_LIMIT,
            0 <= g,
    ;
    assert(-(g * MASS_LIMIT) <= mj * r <= g * MASS_LIMIT) by (nonlinear_arith)
        requires
            -g <= r <= g,
            0 <= mj <= MASS_LIMIT,
            0 <= g,
    ;
}

/// The pull of a body within bounds on another, before mass scaling.
pub fn pair_pull(g: u64, a: &Vec3, b: &Vec3) -> (r: Accel)
    requires
        a.in_bounds(),
        b.in_bounds(),
    ensures
        forall|axis: int| 0 <= axis < 3 ==> #[trigger] r.get(axis) == raw_pull(g as int, *a, *b, axis),
{
    let d2 = distance_squared(a, b);
    if d2 == 0 {
        return Accel { x: 0, y: 0, z: 0 };
    }
    let s = integer_sqrt(d2);
    assert(d2 * s <= DEN_LIMIT) by (nonlinear_arith)
        requires
            0 <= s <= 4398046511104,
            0 <= d2 <= 14507109835375550096474112,
            DEN_LIMIT == 63802943797675961899382738893456539648,
    ;
    assert(d2 * s > 0) by (nonlinear_arith)
        requires
            d2 >= 1,
            s >= 1,
    ;
    let den: u128 = d2 * s;
    let x = axis_pull(g, a.x, b.x, den);
    let y = axis_pull(g, a.y, b.y, den);
    let z = axis_pull(g, a.z, b.z, den);
    Accel { x, y, z }
}

/// One component of a raw pull, given the denominator `d2 * isqrt(d2)`.
fn axis_pull(g: u64, a: i64, b: i64, den: u128) -> (r: i128)
    requires
        den > 0,
        -COORD_LIMIT <= a <= COORD_LIMIT,
        -COORD_LIMIT <= b <= COORD_LIMIT,
        den <= DEN_LIMIT,
    ensures
        r == (if b - a >= 0 {
            (g * (b - a)) / (den as int)
        } else {
            -((g * (-(b - a))) / (den as int))
        }),
{
    let delta: i128 = b as i128 - a as i128;
    let m: u128 = if delta >= 0 { delta as u128 } else { (-delta) as u128 };
    assert(g * m <= 18446744073709551615 * 2 * COORD_LIMIT) by (nonlinear_arith)
        requires
            g <= 18446744073709551615,
            m <= 2 * COORD_LIMIT,
    ;
    let q: u128 = (g as u128 * m) / den;
    assert(q <= g * m) by (nonlinear_arith)
        requires
            den >= 1,
            q == (g * m) / (den as int),
    ;
    if delta >= 0 {
        q as i128
    } else {
        -(q as i128)
    }
}

/// The net acceleration of every body, summed over every unordered pair once:
/// each pair's raw pull is computed once and added, scaled by the other body's
/// mass, to the first body and, negated, to the second.
pub fn accelerations(g: u64, bodies: &Vec<Body>) -> (acc: Vec<Accel>)
    requires
        g <= G_LIMIT,
        valid_system(bodies@),
    ensures
        acc.len() == bodies.len(),
        forall|k: int, axis: int|
            0 <= k < bodies.len() && 0 <= axis < 3 ==> #[trigger] acc@[k].get(axis) == accel(
                g as int,
                bodies@,
                k,
                axis,
            ),
{
    let n = bodies.len();
    let ghost bs = bodies@;
    let ghost gi = g as int;
    let mut acc: Vec<Accel> = Vec::new();
    let mut z: usize = 0;
    while z < n
        invariant
            z <= n,
            acc.len() == z,
            forall|k: int, axis: int| 0 <= k < z ==> #[trigger] acc@[k].get(axis) == 0,
        decreases n - z,
    {
        acc.push(Accel { x: 0, y: 0, z: 0 });
        z = z + 1;
    }
    let mut i: usize = 0;
    while i < n
        invariant
            n == bodies.len(),
            bs == bodies@,
            gi == g,
            g <= G_LIMIT,
            valid_system(bs),
            i <= n,
            acc.len() == n,
            forall|k: int, axis: int|
                0 <= k < n && 0 <= axis < 3 ==> #[trigger] acc@[k].get(axis) == if k < i {
                    accel(gi, bs, k, axis)
                } else {
                    pull_to(gi, bs, k, i as int, axis)
                },
        decreases n - i,
    {
        let mut j: usize = i + 1;
        while j < n
            invariant
                n == bodies.len(),
                bs == bodies@,
                gi == g,
                g <= G_LIMIT,
                valid_system(bs),
                i < n,
                i + 1 <= j <= n,
                acc.len() == n,
                forall|k: int, axis: int|
                    0 <= k < n && 0 <= axis < 3 ==> #[trigger] acc@[k].get(axis) == if k < i {
                        accel(gi, bs, k, axis)
                    } else if k == i {
                        pull_to(gi, bs, k, j as int, axis)
                    } else if k < j {
                        pull_to(gi, bs, k, i + 1, axis)
                    } else {
                        pull_to(gi, bs, k, i as int, axis)
                    },
            decreases n - j,
        {
            let bi = bodies[i];
            let bj = bodies[j];
            assert(bs[i as int].valid());
            assert(bs[j as int].valid());
            let t = pair_pull(g, &bi.pos, &bj.pos);
            proof {
                lemma_pair_step(gi, bs, i as int, j as int, 0);
                lemma_pair_step(gi, bs, i as int, j as int, 1);
                lemma_pair_step(gi, bs, i as int, j as int, 2);
                assert(t.get(0) == t.x && t.get(1) == t.y && t.get(2) == t.z);
            }
            let mi = bi.mass as i128;
            let mj = bj.mass as i128;
            let ai = acc[i];
            let aj = acc[j];
            assert(ai.get(0) == ai.x && ai.get(1) == ai.y && ai.get(2) == ai.z);
            assert(aj.get(0) == aj.x && aj.get(1) == aj.y && aj.get(2) == aj.z);
            let ni = Accel { x: ai.x + mj * t.x, y: ai.y + mj * t.y, z: ai.z + mj * t.z };
            let nj = Accel { x: aj.x - mi * t.x, y: aj.y - mi * t.y, z: aj.z - mi * t.z };
            acc.set(i, ni);
            acc.set(j, nj);
            j = j + 1;
        }
        i = i + 1;
    }
    acc
}

/// Sum, over the first `hi` bodies, of each body's mass times what the first
/// `n` bodies pull it with.
pub open spec fn weighted_pull(g: int, bs: Seq<Body>, hi: int, n: int, axis: int) -> int
    decreases hi,
{
    if hi <= 0 {
        0
    } else {
        weighted_pull(g, bs, hi - 1, n, axis) + bs[hi - 1].mass * pull_to(g, bs, hi - 1, n, axis)
    }
}

/// Sum, over the first `hi` bodies, of each body's mass times the pull of body `n` on it.
pub open spec fn reaction(g: int, bs: Seq<Body>, hi: int, n: int, axis: int) -> int
    decreases hi,
{
    if hi <= 0 {
        0
    } else {
        reaction(g, bs, hi - 1, n, axis) + bs[hi - 1].mass * pull(g, bs[hi - 1], bs[n], axis)
    }
}

proof fn lemma_weighted_extend(g: int, bs: Seq<Body>, hi: int, n: int, axis: int)
    requires
        0 <= hi <= n < bs.len(),
    ensures
        weighted_pull(g, bs, hi, n + 1, axis) == weighted_pull(g, bs, hi, n, axis) + reaction(
            g,
            bs,
            hi,
            n,
            axis,
        ),
    decreases hi,
{
    if hi > 0 {
        lemma_weighted_extend(g, bs, hi - 1, n, axis);
        let k = hi - 1;
        let m = bs[k].mass as int;
        let head = pull_to(g, bs, k, n, axis);
        let last = pull(g, bs[k], bs[n], axis);
        assert(pull_to(g, bs, k, n + 1, axis) == head + last);
        assert(m * (head + last) == m * head + m * last) by (nonlinear_arith);
    }
}

proof fn lemma_reaction(g: int, bs: Seq<Body>, hi: int, n: int, axis: int)
    requires
        0 <= hi <= n < bs.len(),
    ensures
        reaction(g, bs, hi, n, axis) == -(bs[n].mass * pull_to(g, bs, n, hi, axis)),
    decreases hi,
{
    if hi > 0 {
        lemma_reaction(g, bs, hi - 1, n, axis);
        let k = hi - 1;
        let mk = bs[k].mass as int;
        let mn = bs[n].mass as int;
        let r = raw_pull(g, bs[k].pos, bs[n].pos, axis);
        lemma_pull_symmetric(g, bs[k].pos, bs[n].pos, axis);
        let q = pull_to(g, bs, n, k, axis);
        assert(pull_to(g, bs, n, hi, axis) == q + mk * raw_pull(g, bs[n].pos, bs[k].pos, axis));
        assert(-(mn * q) + mk * (mn * r) == -(mn * (q + mk * (-r)))) by (nonlinear_arith);
    }
}

/// Gravity moves no net momentum: the masses times the net accelerations of
/// all bodies sum to zero along every axis, since each pair's pulls on its
/// two bodies cancel.
pub proof fn lemma_net_force_zero(g: int, bs: Seq<Body>, axis: int)
    ensures
        weighted_pull(g, bs, bs.len() as int, bs.len() as int, axis) == 0,
{
    lemma_net_force_zero_to(g, bs, bs.len() as int, axis);
}

proof fn lemma_net_force_zero_to(g: int, bs: Seq<Body>, n: int, axis: int)
    requires
        0 <= n <= bs.len(),
    ensures
        weighted_pull(g, bs, n, n, axis) == 0,
    decreases n,
{
    if n > 0 {
        let k = n - 1;
        lemma_net_force_zero_to(g, bs, k, axis);
        lemma_weighted_extend(g, bs, k, k, axis);
        lemma_reaction(g, bs, k, k, axis);
        assert(pull_to(g, bs, k, n, axis) == pull_to(g, bs, k, k, axis));
    }
}

} // verus!
