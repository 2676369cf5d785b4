//! Bodies of the simulation and the limits that keep their arithmetic exact.
use vstd::prelude::*;
use crate::vector::Vec3;

verus! {

/// Largest total mass a system of bodies may hold.
pub const MASS_LIMIT: u64 = 4_294_967_296;

/// Largest radius of a body, and largest collision margin.
pub const RADIUS_LIMIT: u64 = 1_099_511_627_776;

/// Largest gravitational constant, in fixed-point units.
pub const G_LIMIT: u64 = 281_474_976_710_656;

/// What a body does besides attracting the others.
#[derive(Clone, Copy, Debug, PartialEq, Eq, Structural)]
pub enum Role {
    /// The dominant body: it absorbs planets that come too close and anchors the camera.
    Star,
    /// An ordinary body: it leaves a trail and may be absorbed.
    Planet,
}

/// A point mass.
#[derive(Clone, Copy, Debug, PartialEq, Eq, Structural)]
pub struct Body {
    pub id: u64,
    pub role: Role,
    pub pos: Vec3,
    pub vel: Vec3,
    pub mass: u64,
    pub radius: u64,
}

impl Body {
    pub fn new(id: u64, role: Role, pos: Vec3, vel: Vec3, mass: u64, radius: u64) -> (r: Body)
        ensures
            r == (Body { id, role, pos, vel, mass, radius }),
    {
        Body { id, role, pos, vel, mass, radius }
    }

    /// Positive mass, a radius between one and `RADIUS_LIMIT`, position and
    /// velocity within bounds.
    pub open spec fn valid(self) -> bool {
        self.mass >= 1 && 1 <= self.radius <= RADIUS_LIMIT && self.pos.in_bounds()
            && self.vel.in_bounds()
    }

    pub fn is_valid(&self) -> (r: bool)
        ensures
            r == self.valid(),
    {
        self.mass >= 1 && 1 <= self.radius && self.radius <= RADIUS_LIMIT && self.pos.is_in_bounds()
            && self.vel.is_in_bounds()
    }
}

/// Sum of the masses of the first `hi` bodies.
pub open spec fn mass_to(bs: Seq<Body>, hi: int) -> int
    decreases hi,
{
    if hi <= 0 {
        0
    } else {
        mass_to(bs, hi - 1) + bs[hi - 1].mass
    }
}

/// Total mass of a sequence of bodies.
pub open spec fn total_mass(bs: Seq<Body>) -> int {
    mass_to(bs, bs.len() as int)
}

/// Number of stars among the first `hi` bodies.
pub open spec fn stars_to(bs: Seq<Body>, hi: int) -> int
    decreases hi,
{
    if hi <= 0 {
        0
    } else {
        stars_to(bs, hi - 1) + if bs[hi - 1].role == Role::Star {
            1int
        } else {
            0
        }
    }
}

/// Number of stars in `bs`.
pub open spec fn star_count(bs: Seq<Body>) -> int {
    stars_to(bs, bs.len() as int)
}

/// Partial sums over two sequences whose first `hi` bodies agree in mass and
/// role agree.
pub proof fn lemma_prefix_sums(a: Seq<Body>, b: Seq<Body>, hi: int)
    requires
        0 <= hi <= a.len(),
        hi <= b.len(),
        forall|k: int| 0 <= k < hi ==> (#[trigger] a[k]).mass == b[k].mass && a[k].role == b[k].role,
    ensures
        mass_to(a, hi) == mass_to(b, hi),
        stars_to(a, hi) == stars_to(b, hi),
    decreases hi,
{
    if hi > 0 {
        lemma_prefix_sums(a, b, hi - 1);
    }
}

/// Appending a body adds its mass and, if it is a star, one star.
pub proof fn lemma_push_sums(s: Seq<Body>, b: Body)
    ensures
        total_mass(s.push(b)) == total_mass(s) + b.mass,
        star_count(s.push(b)) == star_count(s) + if b.role == Role::Star {
            1int
        } else {
            0
        },
{
    assert(forall|k: int| 0 <= k < s.len() ==> (#[trigger] s.push(b)[k]) == s[k]);
    lemma_prefix_sums(s.push(b), s, s.len() as int);
}

/// A sequence has at most one star when it has exactly one, and then every
/// star stands at the same index.
pub proof fn lemma_single_star(bs: Seq<Body>, i: int, j: int)
    requires
        star_count(bs) == 1,
        0 <= i < bs.len(),
        0 <= j < bs.len(),
        bs[i].role == Role::Star,
        bs[j].role == Role::Star,
    ensures
        i == j,
{
    if i < j {
        lemma_stars_monotone(bs, i + 1, j);
        lemma_stars_monotone(bs, j + 1, bs.len() as int);
        lemma_stars_monotone(bs, 0, i);
    } else if j < i {
        lemma_stars_monotone(bs, j + 1, i);
        lemma_stars_monotone(bs, i + 1, bs.len() as int);
        lemma_stars_monotone(bs, 0, j);
    }
}

/// Star counts grow with their bound.
pub proof fn lemma_stars_monotone(bs: Seq<Body>, lo: int, hi: int)
    requires
        0 <= lo <= hi <= bs.len(),
    ensures
        0 <= stars_to(bs, lo) <= stars_to(bs, hi),
    decreases hi,
{
    if lo < hi {
        lemma_stars_monotone(bs, lo, hi - 1);
    } else if hi > 0 {
        lemma_stars_monotone(bs, hi - 1, hi - 1);
    }
}

/// Every body is valid and their total mass stays within `MASS_LIMIT`.
pub open spec fn valid_system(bs: Seq<Body>) -> bool {
    &&& forall|k: int| 0 <= k < bs.len() ==> (#[trigger] bs[k]).valid()
    &&& total_mass(bs) <= MASS_LIMIT
}

/// Partial mass sums grow with their bound.
pub proof fn lemma_mass_to_monotone(bs: Seq<Body>, lo: int, hi: int)
    requires
        0 <= lo <= hi <= bs.len(),
    ensures
        0 <= mass_to(bs, lo) <= mass_to(bs, hi),
    decreases hi,
{
    if lo < hi {
        lemma_mass_to_monotone(bs, lo, hi - 1);
    } else if hi > 0 {
        lemma_mass_to_monotone(bs, hi - 1, hi - 1);
    }
}

/// Computes the total mass, or `None` when it exceeds `MASS_LIMIT`.
pub fn checked_total_mass(bodies: &Vec<Body>) -> (r: Option<u64>)
    ensures
        r.is_some() == (total_mass(bodies@) <= MASS_LIMIT),
        r.is_some() ==> r.unwrap() == total_mass(bodies@),
{
    let mut sum: u64 = 0;
    let mut i: usize = 0;
    while i < bodies.len()
        invariant
            i <= bodies.len(),
            sum == mass_to(bodies@, i as int),
            sum <= MASS_LIMIT,
        decreases bodies.len() - i,
    {
        if bodies[i].mass > MASS_LIMIT - sum {
            proof {
                lemma_mass_to_monotone(bodies@, i + 1, bodies@.len() as int);
            }
            return None;
        }
        sum = sum + bodies[i].mass;
        i = i + 1;
    }
    Some(sum)
}

} // verus!
