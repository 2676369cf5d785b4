//! Semi-implicit Euler integration: velocity first, then position with the new velocity.
use vstd::prelude::*;
use crate::vector::{Vec3, COORD_LIMIT};
use crate::body::Body;
use crate::force::Accel;

verus! {

/// Largest magnitude an acceleration component may have when it is applied.
pub const ACCEL_LIMIT: i128 = 1_267_650_600_228_229_401_496_703_205_376;

/// Every component of `a` lies within `ACCEL_LIMIT`.
pub open spec fn accel_in_bounds(a: Accel) -> bool {
    -ACCEL_LIMIT <= a.x <= ACCEL_LIMIT && -ACCEL_LIMIT <= a.y <= ACCEL_LIMIT && -ACCEL_LIMIT
        <= a.z <= ACCEL_LIMIT
}

/// Velocity component `axis` of `b` after acceleration `a`.
pub open spec fn vel_after(b: Body, a: Accel, axis: int) -> int {
    b.vel.get(axis) + a.get(axis)
}

/// Position component `axis` of `b` after acceleration `a`: the old position
/// moved by the new velocity.
pub open spec fn pos_after(b: Body, a: Accel, axis: int) -> int {
    b.pos.get(axis) + vel_after(b, a, axis)
}

/// The updated velocity and position of `b` stay within bounds.
pub open spec fn fits_after(b: Body, a: Accel) -> bool {
    forall|axis: int|
        0 <= axis < 3 ==> -COORD_LIMIT <= #[trigger] vel_after(b, a, axis) <= COORD_LIMIT && -COORD_LIMIT
            <= pos_after(b, a, axis) <= COORD_LIMIT
}

/// `nb` is `b` advanced by one tick under acceleration `a`; nothing else changes.
pub open spec fn advanced(b: Body, a: Accel, nb: Body) -> bool {
    &&& nb.id == b.id && nb.role == b.role && nb.mass == b.mass && nb.radius == b.radius
    &&& forall|axis: int|
        0 <= axis < 3 ==> #[trigger] nb.vel.get(axis) == vel_after(b, a, axis) && nb.pos.get(axis)
            == pos_after(b, a, axis)
}

fn advance_axis(p: i64, v: i64, a: i128) -> (r: (i64, i64))
    requires
        -COORD_LIMIT <= p <= COORD_LIMIT,
        -COORD_LIMIT <= v <= COORD_LIMIT,
        -COORD_LIMIT <= v + a <= COORD_LIMIT,
        -COORD_LIMIT <= p + v + a <= COORD_LIMIT,
    ensures
        r.1 == v + a,
        r.0 == p + v + a,
{
    let nv = (v as i128 + a) as i64;
    let np = (p as i128 + nv as i128) as i64;
    (np, nv)
}

fn axis_fits(p: i64, v: i64, a: i128) -> (r: bool)
    requires
        -COORD_LIMIT <= p <= COORD_LIMIT,
        -COORD_LIMIT <= v <= COORD_LIMIT,
        -ACCEL_LIMIT <= a <= ACCEL_LIMIT,
    ensures
        r == (-COORD_LIMIT <= v + a <= COORD_LIMIT && -COORD_LIMIT <= p + v + a <= COORD_LIMIT),
{
    let lim = COORD_LIMIT as i128;
    let nv = v as i128 + a;
    let np = p as i128 + nv;
    -lim <= nv && nv <= lim && -lim <= np && np <= lim
}

/// Whether advancing `b` by `a` keeps it within bounds.
pub fn body_fits(b: &Body, a: &Accel) -> (r: bool)
    requires
        b.valid(),
        accel_in_bounds(*a),
    ensures
        r == fits_after(*b, *a),
{
    let r = axis_fits(b.pos.x, b.vel.x, a.x) && axis_fits(b.pos.y, b.vel.y, a.y) && axis_fits(
        b.pos.z,
        b.vel.z,
        a.z,
    );
    assert(b.vel.get(0) == b.vel.x && b.vel.get(1) == b.vel.y && b.vel.get(2) == b.vel.z);
    assert(b.pos.get(0) == b.pos.x && b.pos.get(1) == b.pos.y && b.pos.get(2) == b.pos.z);
    assert(a.get(0) == a.x && a.get(1) == a.y && a.get(2) == a.z);
    if !r {
        assert(!(-COORD_LIMIT <= vel_after(*b, *a, 0) <= COORD_LIMIT && -COORD_LIMIT <= pos_after(*b, *a, 0) <= COORD_LIMIT)
            || !(-COORD_LIMIT <= vel_after(*b, *a, 1) <= COORD_LIMIT && -COORD_LIMIT <= pos_after(*b, *a, 1) <= COORD_LIMIT)
            || !(-COORD_LIMIT <= vel_after(*b, *a, 2) <= COORD_LIMIT && -COORD_LIMIT <= pos_after(*b, *a, 2) <= COORD_LIMIT));
    }
    r
}

/// Advances one body by one tick: `vel += a`, then `pos += vel`.
pub fn advance(b: &Body, a: &Accel) -> (r: Body)
    requires
        b.valid(),
        fits_after(*b, *a),
    ensures
        advanced(*b, *a, r),
        r.valid(),
{
    assert(vel_after(*b, *a, 0) == b.vel.x + a.x && pos_after(*b, *a, 0) == b.pos.x + b.vel.x + a.x);
    assert(vel_after(*b, *a, 1) == b.vel.y + a.y && pos_after(*b, *a, 1) == b.pos.y + b.vel.y + a.y);
    assert(vel_after(*b, *a, 2) == b.vel.z + a.z && pos_after(*b, *a, 2) == b.pos.z + b.vel.z + a.z);
    let (px, vx) = advance_axis(b.pos.x, b.vel.x, a.x);
    let (py, vy) = advance_axis(b.pos.y, b.vel.y, a.y);
    let (pz, vz) = advance_axis(b.pos.z, b.vel.z, a.z);
    Body {
        id: b.id,
        role: b.role,
        pos: Vec3 { x: px, y: py, z: pz },
        vel: Vec3 { x: vx, y: vy, z: vz },
        mass: b.mass,
        radius: b.radius,
    }
}

/// Applies one acceleration to each body, in place, when every body stays
/// within bounds; otherwise changes nothing and returns `false`.
pub fn integrate(bodies: &mut Vec<Body>, acc: &Vec<Accel>) -> (ok: bool)
    requires
        old(bodies).len() == acc.len(),
        forall|k: int| 0 <= k < old(bodies).len() ==> (#[trigger] old(bodies)[k]).valid(),
        forall|k: int| 0 <= k < acc.len() ==> accel_in_bounds(#[trigger] acc[k]),
    ensures
        ok == forall|k: int| 0 <= k < acc.len() ==> fits_after(old(bodies)[k], #[trigger] acc[k]),
        ok ==> final(bodies).len() == old(bodies).len() && forall|k: int|
            0 <= k < acc.len() ==> advanced(old(bodies)[k], acc[k], #[trigger] final(bodies)[k]),
        ok ==> forall|k: int| 0 <= k < acc.len() ==> (#[trigger] final(bodies)[k]).valid(),
        !ok ==> *final(bodies) == *old(bodies),
{
    let n = bodies.len();
    let mut i: usize = 0;
    while i < n
        invariant
            n == bodies.len() == acc.len(),
            i <= n,
            forall|k: int| 0 <= k < n ==> (#[trigger] bodies[k]).valid(),
            forall|k: int| 0 <= k < n ==> accel_in_bounds(#[trigger] acc[k]),
            forall|k: int| 0 <= k < i ==> fits_after(bodies[k], #[trigger] acc[k]),
        decreases n - i,
    {
        if !body_fits(&bodies[i], &acc[i]) {
            return false;
        }
        i = i + 1;
    }
    let ghost before = bodies@;
    let mut j: usize = 0;
    while j < n
        invariant
            n == bodies.len() == acc.len() == before.len(),
            j <= n,
            forall|k: int| 0 <= k < n ==> (#[trigger] before[k]).valid(),
            forall|k: int| 0 <= k < n ==> fits_after(before[k], #[trigger] acc[k]),
            forall|k: int| j <= k < n ==> #[trigger] bodies[k] == before[k],
            forall|k: int| 0 <= k < j ==> advanced(before[k], acc[k], #[trigger] bodies[k]),
            forall|k: int| 0 <= k < j ==> (#[trigger] bodies[k]).valid(),
        decreases n - j,
    {
        let nb = advance(&bodies[j], &acc[j]);
        bodies.set(j, nb);
        j = j + 1;
    }
    true
}

} // verus!
