//! Collisions with the star: a planet that comes too close is removed and its
//! mass goes to the star.
use vstd::prelude::*;
use crate::vector::{dist_sq, distance_squared};
use crate::body::{
    Body, Role, RADIUS_LIMIT, MASS_LIMIT, mass_to, total_mass, star_count, stars_to,
    valid_system, lemma_mass_to_monotone, lemma_push_sums,
};

verus! {

/// The distance between the centres of `star` and `b` is below the sum of
/// their radii and `margin`. Both sides are non-negative, so comparing the
/// squared distance with the squared reach decides it exactly.
pub open spec fn touches(star: Body, b: Body, margin: int) -> bool {
    let reach = star.radius + b.radius + margin;
    dist_sq(star.pos, b.pos) < reach * reach
}

/// Body `k` of `bs` is a planet touching the star `bs[s]`.
pub open spec fn absorbed(bs: Seq<Body>, s: int, margin: int, k: int) -> bool {
    bs[k].role == Role::Planet && touches(bs[s], bs[k], margin)
}

/// Total mass of the absorbed bodies among the first `hi`.
pub open spec fn absorbed_mass(bs: Seq<Body>, s: int, margin: int, hi: int) -> int
    decreases hi,
{
    if hi <= 0 {
        0
    } else {
        absorbed_mass(bs, s, margin, hi - 1) + if absorbed(bs, s, margin, hi - 1) {
            bs[hi - 1].mass as int
        } else {
            0
        }
    }
}

/// Identities of the absorbed bodies among the first `hi`, in order.
pub open spec fn absorbed_ids(bs: Seq<Body>, s: int, margin: int, hi: int) -> Seq<u64>
    decreases hi,
{
    if hi <= 0 {
        Seq::<u64>::empty()
    } else {
        absorbed_ids(bs, s, margin, hi - 1) + if absorbed(bs, s, margin, hi - 1) {
            seq![bs[hi - 1].id]
        } else {
            Seq::<u64>::empty()
        }
    }
}

/// The first `hi` bodies after resolution: absorbed ones gone, the star with
/// mass `star_mass`, the others unchanged and in order.
pub open spec fn survivors(bs: Seq<Body>, s: int, margin: int, star_mass: int, hi: int) -> Seq<Body>
    decreases hi,
{
    if hi <= 0 {
        Seq::<Body>::empty()
    } else {
        survivors(bs, s, margin, star_mass, hi - 1) + if hi - 1 == s {
            seq![Body { mass: star_mass as u64, ..bs[s] }]
        } else if absorbed(bs, s, margin, hi - 1) {
            Seq::<Body>::empty()
        } else {
            seq![bs[hi - 1]]
        }
    }
}

/// The bodies after resolving every collision with the star `bs[s]`.
pub open spec fn resolved(bs: Seq<Body>, s: int, margin: int) -> Seq<Body> {
    let n = bs.len() as int;
    survivors(bs, s, margin, bs[s].mass + absorbed_mass(bs, s, margin, n), n)
}

/// Whether `b` is close enough to `star` to be absorbed.
pub fn collides(star: &Body, b: &Body, margin: u64) -> (r: bool)
    requires
        star.valid(),
        b.valid(),
        margin <= RADIUS_LIMIT,
    ensures
        r == touches(*star, *b, margin as int),
{
    let d2 = distance_squared(&star.pos, &b.pos);
    let reach: u128 = star.radius as u128 + b.radius as u128 + margin as u128;
    assert(reach * reach <= 3 * RADIUS_LIMIT * 3 * RADIUS_LIMIT) by (nonlinear_arith)
        requires
            0 <= reach <= 3 * RADIUS_LIMIT,
    ;
    assert(3 * RADIUS_LIMIT * 3 * RADIUS_LIMIT == 10880332376531662572355584) by (nonlinear_arith)
        requires
            RADIUS_LIMIT == 1_099_511_627_776,
    ;
    d2 < reach * reach
}

proof fn lemma_absorbed_bound(bs: Seq<Body>, s: int, margin: int, hi: int)
    requires
        0 <= s < bs.len(),
        bs[s].role == Role::Star,
        0 <= hi <= bs.len(),
    ensures
        0 <= absorbed_mass(bs, s, margin, hi),
        0 <= absorbed_mass(bs, s, margin, hi) + if s < hi {
            bs[s].mass as int
        } else {
            0
        } <= mass_to(bs, hi),
    decreases hi,
{
    if hi > 0 {
        lemma_absorbed_bound(bs, s, margin, hi - 1);
    }
}

proof fn lemma_survivors(bs: Seq<Body>, s: int, margin: int, star_mass: int, hi: int)
    requires
        valid_system(bs),
        0 <= s < bs.len(),
        bs[s].role == Role::Star,
        1 <= star_mass <= MASS_LIMIT,
        0 <= hi <= bs.len(),
    ensures
        total_mass(survivors(bs, s, margin, star_mass, hi)) == mass_to(bs, hi) - absorbed_mass(
            bs,
            s,
            margin,
            hi,
        ) + if s < hi {
            star_mass - bs[s].mass
        } else {
            0
        },
        star_count(survivors(bs, s, margin, star_mass, hi)) == stars_to(bs, hi),
        forall|k: int|
            0 <= k < survivors(bs, s, margin, star_mass, hi).len() ==> (#[trigger] survivors(
                bs,
                s,
                margin,
                star_mass,
                hi,
            )[k]).valid(),
    decreases hi,
{
    if hi > 0 {
        lemma_survivors(bs, s, margin, star_mass, hi - 1);
        let prev = survivors(bs, s, margin, star_mass, hi - 1);
        let k = hi - 1;
        assert(bs[k].valid());
        if k == s {
            let st = Body { mass: star_mass as u64, ..bs[s] };
            lemma_push_sums(prev, st);
            assert(prev + seq![st] == prev.push(st));
        } else if absorbed(bs, s, margin, k) {
            assert(prev + Seq::<Body>::empty() == prev);
        } else {
            lemma_push_sums(prev, bs[k]);
            assert(prev + seq![bs[k]] == prev.push(bs[k]));
        }
    }
}

/// Removes every planet that touches the star `bodies[s]`, adds the removed
/// masses to the star, and returns the removed identities in order.
pub fn absorb(bodies: &mut Vec<Body>, s: usize, margin: u64) -> (removed: Vec<u64>)
    requires
        valid_system(old(bodies)@),
        s < old(bodies).len(),
        old(bodies)[s as int].role == Role::Star,
        margin <= RADIUS_LIMIT,
    ensures
        final(bodies)@ == resolved(old(bodies)@, s as int, margin as int),
        removed@ == absorbed_ids(old(bodies)@, s as int, margin as int, old(bodies).len() as int),
        valid_system(final(bodies)@),
        total_mass(final(bodies)@) == total_mass(old(bodies)@),
        star_count(final(bodies)@) == star_count(old(bodies)@),
{
    let ghost bs = bodies@;
    let ghost mg = margin as int;
    let n = bodies.len();
    let star = bodies[s];
    assert(star.valid());
    let mut gained: u64 = 0;
    let mut removed: Vec<u64> = Vec::new();
    let mut i: usize = 0;
    while i < n
        invariant
            bs == bodies@,
            n == bs.len(),
            s < n,
            star == bs[s as int],
            star.role == Role::Star,
            star.valid(),
            valid_system(bs),
            margin <= RADIUS_LIMIT,
            mg == margin,
            i <= n,
            gained == absorbed_mass(bs, s as int, mg, i as int),
            removed@ == absorbed_ids(bs, s as int, mg, i as int),
        decreases n - i,
    {
        let b = bodies[i];
        assert(bs[i as int].valid());
        proof {
            lemma_absorbed_bound(bs, s as int, mg, i + 1);
            lemma_mass_to_monotone(bs, i + 1, n as int);
        }
        match b.role {
            Role::Planet => {
                if collides(&star, &b, margin) {
                    gained = gained + b.mass;
                    removed.push(b.id);
                }
            },
            Role::Star => {},
        }
        i = i + 1;
    }
    proof {
        lemma_absorbed_bound(bs, s as int, mg, n as int);
    }
    let star_mass: u64 = star.mass + gained;
    let ghost sm = star_mass as int;
    let mut out: Vec<Body> = Vec::new();
    let mut j: usize = 0;
    while j < n
        invariant
            bs == bodies@,
            n == bs.len(),
            s < n,
            star == bs[s as int],
            star.role == Role::Star,
            star.valid(),
            valid_system(bs),
            margin <= RADIUS_LIMIT,
            mg == margin,
            j <= n,
            sm == star_mass,
            out@ == survivors(bs, s as int, mg, sm, j as int),
        decreases n - j,
    {
        let b = bodies[j];
        assert(bs[j as int].valid());
        if j == s {
            out.push(Body { mass: star_mass, ..b });
        } else {
            let gone = match b.role {
                Role::Planet => collides(&star, &b, margin),
                Role::Star => false,
            };
            if !gone {
                out.push(b);
            }
        }
        j = j + 1;
    }
    proof {
        lemma_survivors(bs, s as int, mg, sm, n as int);
    }
    *bodies = out;
    removed
}

/// Absorption conserves mass: the star ends with its own mass plus the masses
/// of all bodies it absorbed, whatever their order, and the total mass of the
/// system is unchanged.
pub proof fn lemma_absorption_conserves_mass(bs: Seq<Body>, s: int, margin: int)
    requires
        valid_system(bs),
        0 <= s < bs.len(),
        bs[s].role == Role::Star,
    ensures
        total_mass(resolved(bs, s, margin)) == total_mass(bs),
{
    let n = bs.len() as int;
    assert(bs[s].valid());
    lemma_absorbed_bound(bs, s, margin, n);
    lemma_survivors(bs, s, margin, bs[s].mass + absorbed_mass(bs, s, margin, n), n);
}

/// The collision threshold is strict: a planet whose centre lies `eps` inside
/// the reach (the radii plus the margin) of the star is absorbed, and one
/// whose centre lies `eps` beyond it is not.
pub proof fn lemma_collision_threshold(star: Body, b: Body, margin: int, eps: int)
    requires
        0 <= margin,
        0 < eps <= star.radius + b.radius + margin,
    ensures
        ({
            let reach = star.radius + b.radius + margin;
            &&& dist_sq(star.pos, b.pos) == (reach - eps) * (reach - eps) ==> touches(star, b, margin)
            &&& dist_sq(star.pos, b.pos) == (reach + eps) * (reach + eps) ==> !touches(star, b, margin)
        }),
{
    let reach = star.radius + b.radius + margin;
    assert((reach - eps) * (reach - eps) < reach * reach) by (nonlinear_arith)
        requires
            0 < eps <= reach,
    ;
    assert((reach + eps) * (reach + eps) > reach * reach) by (nonlinear_arith)
        requires
            0 < eps,
            0 <= reach,
    ;
}

} // verus!
