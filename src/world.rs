//! The simulation state and one tick of its pipeline: forces, integration,
//! trails on their cadence, then absorption by the star.
use vstd::prelude::*;
use crate::vector::{Vec3, COORD_LIMIT};
use crate::body::{
    Body, Role, G_LIMIT, MASS_LIMIT, RADIUS_LIMIT, total_mass, star_count, stars_to, valid_system,
    checked_total_mass, lemma_prefix_sums, lemma_single_star,
};
use crate::force::{Accel, accel, accelerations, weighted_pull, lemma_pull_to_bound, lemma_net_force_zero};
use crate::integrate::{ACCEL_LIMIT, accel_in_bounds, fits_after, advanced, integrate};
use crate::trail::{TrailMarker, all_live, decay_all, stamps, is_trail_tick, spawn_trails, decay_trails};
use crate::absorb::{resolved, absorbed_ids, absorb};

verus! {

/// The named constants of a simulation, in fixed-point units.
#[derive(Clone, Copy, Debug, PartialEq, Eq, Structural)]
pub struct Config {
    pub gravitational_constant: u64,
    pub trail_length: u32,
    pub trail_period: u64,
    pub collision_margin: u64,
}

impl Config {
    pub fn new(gravitational_constant: u64, trail_length: u32, trail_period: u64, collision_margin: u64) -> (r: Config)
        ensures
            r == (Config { gravitational_constant, trail_length, trail_period, collision_margin }),
    {
        Config { gravitational_constant, trail_length, trail_period, collision_margin }
    }

    /// Constants the simulation can run with.
    pub open spec fn valid(self) -> bool {
        self.gravitational_constant <= G_LIMIT && self.trail_length >= 1 && self.trail_period >= 1
            && self.collision_margin <= RADIUS_LIMIT
    }
}

/// Why a set of bodies and constants cannot start a simulation.
#[derive(Clone, Copy, Debug, PartialEq, Eq, Structural)]
pub enum ConfigError {
    GravityTooLarge,
    ZeroTrailLength,
    ZeroTrailPeriod,
    MarginTooLarge,
    InvalidBody,
    TooMuchMass,
    NoStar,
    SeveralStars,
    DuplicateId,
}

/// Why a tick could not be taken.
#[derive(Clone, Copy, Debug, PartialEq, Eq, Structural)]
pub enum StepError {
    /// A position or velocity would leave the bounds of the world.
    OutOfBounds,
}

/// No two bodies share an identity.
pub open spec fn unique_ids(bs: Seq<Body>) -> bool {
    forall|i: int, j: int| 0 <= i < j < bs.len() ==> bs[i].id != bs[j].id
}

/// The first problem found with `c` and `bs`, checked in a fixed order.
pub open spec fn config_error(c: Config, bs: Seq<Body>) -> Option<ConfigError> {
    if c.gravitational_constant > G_LIMIT {
        Some(ConfigError::GravityTooLarge)
    } else if c.trail_length == 0 {
        Some(ConfigError::ZeroTrailLength)
    } else if c.trail_period == 0 {
        Some(ConfigError::ZeroTrailPeriod)
    } else if c.collision_margin > RADIUS_LIMIT {
        Some(ConfigError::MarginTooLarge)
    } else if !(forall|k: int| 0 <= k < bs.len() ==> (#[trigger] bs[k]).valid()) {
        Some(ConfigError::InvalidBody)
    } else if total_mass(bs) > MASS_LIMIT {
        Some(ConfigError::TooMuchMass)
    } else if star_count(bs) == 0 {
        Some(ConfigError::NoStar)
    } else if star_count(bs) > 1 {
        Some(ConfigError::SeveralStars)
    } else if !unique_ids(bs) {
        Some(ConfigError::DuplicateId)
    } else {
        None
    }
}

/// Every coordinate of every body stays in bounds after one tick of gravity.
pub open spec fn fits(g: int, bs: Seq<Body>) -> bool {
    forall|k: int, axis: int|
        0 <= k < bs.len() && 0 <= axis < 3 ==> {
            let v = bs[k].vel.get(axis) + #[trigger] accel(g, bs, k, axis);
            -COORD_LIMIT <= v <= COORD_LIMIT && -COORD_LIMIT <= bs[k].pos.get(axis) + v <= COORD_LIMIT
        }
}

/// Body `k` after one tick of gravity: velocity plus net acceleration, then
/// position plus that new velocity.
pub open spec fn moved_body(g: int, bs: Seq<Body>, k: int) -> Body {
    let b = bs[k];
    let vx = b.vel.x + accel(g, bs, k, 0);
    let vy = b.vel.y + accel(g, bs, k, 1);
    let vz = b.vel.z + accel(g, bs, k, 2);
    Body {
        vel: Vec3 { x: vx as i64, y: vy as i64, z: vz as i64 },
        pos: Vec3 { x: (b.pos.x + vx) as i64, y: (b.pos.y + vy) as i64, z: (b.pos.z + vz) as i64 },
        ..b
    }
}

/// All bodies after one tick of gravity.
pub open spec fn moved(g: int, bs: Seq<Body>) -> Seq<Body> {
    Seq::new(bs.len(), |k: int| moved_body(g, bs, k))
}

/// Total momentum of the first `hi` bodies along `axis`.
pub open spec fn momentum_to(bs: Seq<Body>, hi: int, axis: int) -> int
    decreases hi,
{
    if hi <= 0 {
        0
    } else {
        momentum_to(bs, hi - 1, axis) + bs[hi - 1].mass * bs[hi - 1].vel.get(axis)
    }
}

/// Total momentum (mass-weighted velocity sum) along `axis`.
pub open spec fn momentum(bs: Seq<Body>, axis: int) -> int {
    momentum_to(bs, bs.len() as int, axis)
}

/// The simulation: bodies, live trail markers, and the number of ticks taken.
pub struct World {
    pub config: Config,
    pub bodies: Vec<Body>,
    pub trails: Vec<TrailMarker>,
    pub frame: u64,
}

impl World {
    /// Valid constants, a valid system with exactly one star, live markers.
    pub open spec fn wf(self) -> bool {
        &&& self.config.valid()
        &&& valid_system(self.bodies@)
        &&& star_count(self.bodies@) == 1
        &&& all_live(self.trails@)
    }

    /// Starts a simulation, or reports the first problem with its input.
    pub fn new(config: Config, bodies: Vec<Body>) -> (r: Result<World, ConfigError>)
        ensures
            config_error(config, bodies@) is None <==> r is Ok,
            r matches Err(e) ==> config_error(config, bodies@) == Some(e),
            r matches Ok(w) ==> w.wf() && w.config == config && w.bodies@ == bodies@ && w.trails@.len()
                == 0 && w.frame == 0,
    {
        if config.gravitational_constant > G_LIMIT {
            return Err(ConfigError::GravityTooLarge);
        }
        if config.trail_length == 0 {
            return Err(ConfigError::ZeroTrailLength);
        }
        if config.trail_period == 0 {
            return Err(ConfigError::ZeroTrailPeriod);
        }
        if config.collision_margin > RADIUS_LIMIT {
            return Err(ConfigError::MarginTooLarge);
        }
        let mut i: usize = 0;
        while i < bodies.len()
            invariant
                config.valid(),
                i <= bodies.len(),
                forall|k: int| 0 <= k < i ==> (#[trigger] bodies@[k]).valid(),
            decreases bodies.len() - i,
        {
            if !bodies[i].is_valid() {
                assert(!bodies@[i as int].valid());
                return Err(ConfigError::InvalidBody);
            }
            i = i + 1;
        }
        if checked_total_mass(&bodies).is_none() {
            return Err(ConfigError::TooMuchMass);
        }
        let stars = count_stars(&bodies);
        if stars == 0 {
            return Err(ConfigError::NoStar);
        }
        if stars > 1 {
            return Err(ConfigError::SeveralStars);
        }
        if !ids_unique(&bodies) {
            return Err(ConfigError::DuplicateId);
        }
        Ok(World { config, bodies, trails: Vec::new(), frame: 0 })
    }

    /// Position of the star, which the camera follows.
    pub fn star_position(&self) -> (r: Vec3)
        requires
            self.wf(),
        ensures
            exists|s: int| 0 <= s < self.bodies@.len() && self.bodies@[s].role == Role::Star
                && r == self.bodies@[s].pos,
    {
        let s = find_star(&self.bodies);
        self.bodies[s].pos
    }
}

/// Number of stars among `bodies`.
pub fn count_stars(bodies: &Vec<Body>) -> (r: usize)
    ensures
        r == star_count(bodies@),
{
    let mut c: usize = 0;
    let mut i: usize = 0;
    while i < bodies.len()
        invariant
            i <= bodies.len(),
            c <= i,
            c == stars_to(bodies@, i as int),
        decreases bodies.len() - i,
    {
        match bodies[i].role {
            Role::Star => {
                c = c + 1;
            },
            Role::Planet => {},
        }
        i = i + 1;
    }
    c
}

/// Whether no two bodies share an identity.
pub fn ids_unique(bodies: &Vec<Body>) -> (r: bool)
    ensures
        r == unique_ids(bodies@),
{
    let n = bodies.len();
    let mut i: usize = 0;
    while i < n
        invariant
            n == bodies.len(),
            i <= n,
            forall|a: int, b: int| 0 <= a < i && a < b < n ==> bodies@[a].id != bodies@[b].id,
        decreases n - i,
    {
        let mut j: usize = i + 1;
        while j < n
            invariant
                n == bodies.len(),
                i < n,
                i + 1 <= j <= n,
                forall|a: int, b: int| 0 <= a < i && a < b < n ==> bodies@[a].id != bodies@[b].id,
                forall|b: int| i < b < j ==> bodies@[i as int].id != bodies@[b].id,
            decreases n - j,
        {
            if bodies[i].id == bodies[j].id {
                return false;
            }
            j = j + 1;
        }
        i = i + 1;
    }
    true
}

/// Index of the first star, if there is one.
pub fn find_star(bodies: &Vec<Body>) -> (r: usize)
    requires
        star_count(bodies@) >= 1,
    ensures
        r < bodies.len(),
        bodies@[r as int].role == Role::Star,
        stars_to(bodies@, r as int) == 0,
{
    let mut i: usize = 0;
    while i < bodies.len()
        invariant
            i <= bodies.len(),
            stars_to(bodies@, i as int) == 0,
            star_count(bodies@) >= 1,
        decreases bodies.len() - i,
    {
        if bodies[i].role == Role::Star {
            return i;
        }
        i = i + 1;
    }
    i
}

impl World {
    /// Takes one tick: every body is pulled by every other, velocities and
    /// then positions are updated, trails are stamped and aged on their
    /// cadence, and the star absorbs the planets that touch it. Returns the
    /// identities of the absorbed planets. When a body would leave the bounds
    /// of the world, nothing changes and the tick is refused.
    pub fn step(&mut self) -> (r: Result<Vec<u64>, StepError>)
        requires
            old(self).wf(),
        ensures
            final(self).wf(),
            r is Err <==> !fits(old(self).config.gravitational_constant as int, old(self).bodies@),
            r is Err ==> *final(self) == *old(self),
            r is Ok ==> final(self).config == old(self).config,
            r is Ok ==> final(self).frame == if old(self).frame == u64::MAX {
                0
            } else {
                (old(self).frame + 1) as u64
            },
            r is Ok ==> final(self).trails@ == if old(self).frame % old(self).config.trail_period == 0 {
                decay_all(
                    old(self).trails@ + stamps(
                        moved(old(self).config.gravitational_constant as int, old(self).bodies@),
                        old(self).config.trail_length,
                    ),
                )
            } else {
                old(self).trails@
            },
            forall|s: int|
                #![trigger old(self).bodies@[s]]
                r is Ok && 0 <= s < old(self).bodies@.len() && old(self).bodies@[s].role == Role::Star
                    ==> {
                    let mv = moved(old(self).config.gravitational_constant as int, old(self).bodies@);
                    &&& final(self).bodies@ == resolved(mv, s, old(self).config.collision_margin as int)
                    &&& r.unwrap()@ == absorbed_ids(
                        mv,
                        s,
                        old(self).config.collision_margin as int,
                        mv.len() as int,
                    )
                },
    {
        let g = self.config.gravitational_constant;
        let ghost gi = g as int;
        let ghost bs = self.bodies@;
        let n = self.bodies.len();
        let s = find_star(&self.bodies);
        let acc = accelerations(g, &self.bodies);
        proof {
            assert forall|k: int| 0 <= k < n implies accel_in_bounds(#[trigger] acc@[k]) by {
                lemma_accel_bound(gi, bs, k, 0);
                lemma_accel_bound(gi, bs, k, 1);
                lemma_accel_bound(gi, bs, k, 2);
                assert(acc@[k].get(0) == acc@[k].x);
                assert(acc@[k].get(1) == acc@[k].y);
                assert(acc@[k].get(2) == acc@[k].z);
            }
        }
        let ok = integrate(&mut self.bodies, &acc);
        proof {
            lemma_fits_iff(gi, bs, acc@);
        }
        if !ok {
            return Err(StepError::OutOfBounds);
        }
        proof {
            lemma_integrated(gi, bs, acc@, self.bodies@);
            lemma_prefix_sums(self.bodies@, bs, n as int);
        }
        if is_trail_tick(self.frame, self.config.trail_period) {
            spawn_trails(&self.bodies, &mut self.trails, self.config.trail_length);
            decay_trails(&mut self.trails);
        }
        let removed = absorb(&mut self.bodies, s, self.config.collision_margin);
        self.frame = if self.frame == u64::MAX {
            0
        } else {
            self.frame + 1
        };
        proof {
            assert forall|t: int|
                0 <= t < bs.len() && bs[t].role == Role::Star implies t == s as int by {
                lemma_single_star(bs, t, s as int);
            }
        }
        Ok(removed)
    }
}

/// Net accelerations stay within `ACCEL_LIMIT` in a valid system.
proof fn lemma_accel_bound(g: int, bs: Seq<Body>, k: int, axis: int)
    requires
        0 <= g <= G_LIMIT,
        valid_system(bs),
        0 <= k < bs.len(),
    ensures
        -ACCEL_LIMIT <= accel(g, bs, k, axis) <= ACCEL_LIMIT,
{
    lemma_pull_to_bound(g, bs, k, bs.len() as int, axis);
    crate::body::lemma_mass_to_monotone(bs, 0, bs.len() as int);
    assert(g * total_mass(bs) <= ACCEL_LIMIT) by (nonlinear_arith)
        requires
            0 <= g <= G_LIMIT,
            0 <= total_mass(bs) <= MASS_LIMIT,
            G_LIMIT == 281_474_976_710_656,
            MASS_LIMIT == 4_294_967_296,
            ACCEL_LIMIT == 1_267_650_600_228_229_401_496_703_205_376,
    ;
}

proof fn lemma_fits_iff(g: int, bs: Seq<Body>, acc: Seq<Accel>)
    requires
        acc.len() == bs.len(),
        forall|k: int, axis: int|
            0 <= k < bs.len() && 0 <= axis < 3 ==> #[trigger] acc[k].get(axis) == accel(g, bs, k, axis),
    ensures
        fits(g, bs) == forall|k: int| 0 <= k < acc.len() ==> fits_after(bs[k], #[trigger] acc[k]),
{
    if fits(g, bs) {
        assert forall|k: int| 0 <= k < acc.len() implies fits_after(bs[k], #[trigger] acc[k]) by {
            assert forall|axis: int| 0 <= axis < 3 implies -COORD_LIMIT <= #[trigger] crate::integrate::vel_after(bs[k], acc[k], axis) <= COORD_LIMIT
                && -COORD_LIMIT <= crate::integrate::pos_after(bs[k], acc[k], axis) <= COORD_LIMIT by {
                assert(acc[k].get(axis) == accel(g, bs, k, axis));
            }
        }
    } else {
        let (k, axis) = choose|k: int, axis: int|
            0 <= k < bs.len() && 0 <= axis < 3 && !({
                let v = bs[k].vel.get(axis) + #[trigger] accel(g, bs, k, axis);
                -COORD_LIMIT <= v <= COORD_LIMIT && -COORD_LIMIT <= bs[k].pos.get(axis) + v <= COORD_LIMIT
            });
        assert(acc[k].get(axis) == accel(g, bs, k, axis));
        assert(!(-COORD_LIMIT <= crate::integrate::vel_after(bs[k], acc[k], axis) <= COORD_LIMIT
            && -COORD_LIMIT <= crate::integrate::pos_after(bs[k], acc[k], axis) <= COORD_LIMIT));
        assert(!fits_after(bs[k], acc[k]));
    }
}

proof fn lemma_integrated(g: int, bs: Seq<Body>, acc: Seq<Accel>, next: Seq<Body>)
    requires
        acc.len() == bs.len(),
        next.len() == bs.len(),
        forall|k: int, axis: int|
            0 <= k < bs.len() && 0 <= axis < 3 ==> #[trigger] acc[k].get(axis) == accel(g, bs, k, axis),
        forall|k: int| 0 <= k < acc.len() ==> advanced(bs[k], acc[k], #[trigger] next[k]),
        forall|k: int| 0 <= k < acc.len() ==> fits_after(bs[k], #[trigger] acc[k]),
    ensures
        next == moved(g, bs),
{
    assert forall|k: int| 0 <= k < bs.len() implies #[trigger] next[k] == moved_body(g, bs, k) by {
        assert(advanced(bs[k], acc[k], next[k]));
        assert(fits_after(bs[k], acc[k]));
        assert(acc[k].get(0) == accel(g, bs, k, 0));
        assert(acc[k].get(1) == accel(g, bs, k, 1));
        assert(acc[k].get(2) == accel(g, bs, k, 2));
        assert(next[k].vel.get(0) == next[k].vel.x && next[k].pos.get(0) == next[k].pos.x);
        assert(next[k].vel.get(1) == next[k].vel.y && next[k].pos.get(1) == next[k].pos.y);
        assert(next[k].vel.get(2) == next[k].vel.z && next[k].pos.get(2) == next[k].pos.z);
        assert(crate::integrate::vel_after(bs[k], acc[k], 0) == bs[k].vel.x + accel(g, bs, k, 0));
        assert(crate::integrate::vel_after(bs[k], acc[k], 1) == bs[k].vel.y + accel(g, bs, k, 1));
        assert(crate::integrate::vel_after(bs[k], acc[k], 2) == bs[k].vel.z + accel(g, bs, k, 2));
    }
    assert(next =~= moved(g, bs));
}

/// Without collisions gravity conserves momentum exactly: along every axis the
/// mass-weighted velocity sum after one tick equals the sum before it.
pub proof fn lemma_momentum_conserved(g: int, bs: Seq<Body>, axis: int)
    requires
        fits(g, bs),
        0 <= axis < 3,
    ensures
        momentum(moved(g, bs), axis) == momentum(bs, axis),
{
    let n = bs.len() as int;
    lemma_momentum_to(g, bs, n, axis);
    lemma_net_force_zero(g, bs, axis);
}

proof fn lemma_momentum_to(g: int, bs: Seq<Body>, hi: int, axis: int)
    requires
        fits(g, bs),
        0 <= axis < 3,
        0 <= hi <= bs.len(),
    ensures
        momentum_to(moved(g, bs), hi, axis) == momentum_to(bs, hi, axis) + weighted_pull(
            g,
            bs,
            hi,
            bs.len() as int,
            axis,
        ),
    decreases hi,
{
    if hi > 0 {
        lemma_momentum_to(g, bs, hi - 1, axis);
        let k = hi - 1;
        let mv = moved(g, bs);
        let a = accel(g, bs, k, axis);
        let v = bs[k].vel.get(axis);
        let m = bs[k].mass as int;
        assert(mv[k] == moved_body(g, bs, k));
        assert(mv[k].vel.get(axis) == v + a);
        assert(m * (v + a) == m * v + m * a) by (nonlinear_arith);
    }
}

/// A tick integrates by semi-implicit Euler: the new velocity is the old one
/// plus the acceleration, and the new position is the old one plus that new
/// velocity, so `p + v + a` rather than `p + v`.
pub proof fn lemma_semi_implicit(g: int, bs: Seq<Body>, k: int, axis: int)
    requires
        fits(g, bs),
        0 <= k < bs.len(),
        0 <= axis < 3,
    ensures
        moved(g, bs)[k].vel.get(axis) == bs[k].vel.get(axis) + accel(g, bs, k, axis),
        moved(g, bs)[k].pos.get(axis) == bs[k].pos.get(axis) + bs[k].vel.get(axis) + accel(
            g,
            bs,
            k,
            axis,
        ),
{
    assert(moved(g, bs)[k] == moved_body(g, bs, k));
}

} // verus!
