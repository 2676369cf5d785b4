//! Fixed-point three-dimensional vectors and the integer geometry used by the
//! simulation: squared distances and integer square roots.
use vstd::prelude::*;

verus! {

/// Largest magnitude a coordinate of a position or a velocity may have.
pub const COORD_LIMIT: i64 = 1_099_511_627_776;

/// Bound on the squared distance of two in-bounds points: `3 * (2 * COORD_LIMIT)^2`.
pub const DIST_SQ_LIMIT: u128 = 14507109835375550096474112;

/// Bound on the integer square root of such a squared distance: `4 * COORD_LIMIT`.
pub const ROOT_LIMIT: u128 = 4398046511104;

/// A vector in fixed-point world units.
#[derive(Clone, Copy, Debug, PartialEq, Eq, Structural)]
pub struct Vec3 {
    pub x: i64,
    pub y: i64,
    pub z: i64,
}

/// Component `axis` (0, 1 or 2) of a triple of integers.
pub open spec fn pick(axis: int, x: int, y: int, z: int) -> int {
    if axis == 0 {
        x
    } else if axis == 1 {
        y
    } else {
        z
    }
}

impl Vec3 {
    pub open spec fn get(self, axis: int) -> int {
        pick(axis, self.x as int, self.y as int, self.z as int)
    }

    /// Every coordinate lies within `COORD_LIMIT`.
    pub open spec fn in_bounds(self) -> bool {
        -COORD_LIMIT <= self.x <= COORD_LIMIT && -COORD_LIMIT <= self.y <= COORD_LIMIT
            && -COORD_LIMIT <= self.z <= COORD_LIMIT
    }

    pub fn new(x: i64, y: i64, z: i64) -> (r: Vec3)
        ensures
            r.x == x && r.y == y && r.z == z,
    {
        Vec3 { x, y, z }
    }

    pub fn zero() -> (r: Vec3)
        ensures
            r.x == 0 && r.y == 0 && r.z == 0,
    {
        Vec3 { x: 0, y: 0, z: 0 }
    }

    pub fn is_in_bounds(&self) -> (r: bool)
        ensures
            r == self.in_bounds(),
    {
        -COORD_LIMIT <= self.x && self.x <= COORD_LIMIT && -COORD_LIMIT <= self.y && self.y
            <= COORD_LIMIT && -COORD_LIMIT <= self.z && self.z <= COORD_LIMIT
    }
}

/// Squared Euclidean distance between two points.
pub open spec fn dist_sq(a: Vec3, b: Vec3) -> int {
    (b.x - a.x) * (b.x - a.x) + (b.y - a.y) * (b.y - a.y) + (b.z - a.z) * (b.z - a.z)
}

/// `r` is the integer square root of `n`: the largest natural whose square is at most `n`.
pub open spec fn is_root(n: int, r: int) -> bool {
    0 <= r && r * r <= n < (r + 1) * (r + 1)
}

/// The integer square root of a natural number.
pub open spec fn isqrt(n: int) -> int {
    choose|r: int| is_root(n, r)
}

/// A natural number has at most one integer square root.
pub proof fn lemma_root_unique(n: int, r: int, s: int)
    requires
        is_root(n, r),
        is_root(n, s),
    ensures
        r == s,
{
    if r < s {
        assert((r + 1) * (r + 1) <= s * s) by (nonlinear_arith)
            requires
                0 <= r,
                r + 1 <= s,
        ;
    } else if s < r {
        assert((s + 1) * (s + 1) <= r * r) by (nonlinear_arith)
            requires
                0 <= s,
                s + 1 <= r,
        ;
    }
}

/// A squared distance is never negative.
pub proof fn lemma_dist_sq_nonneg(a: Vec3, b: Vec3)
    ensures
        dist_sq(a, b) >= 0,
{
    let (dx, dy, dz) = (b.x - a.x, b.y - a.y, b.z - a.z);
    assert(0 <= dx * dx && 0 <= dy * dy && 0 <= dz * dz) by (nonlinear_arith);
}

/// Every natural number has an integer square root.
pub proof fn lemma_isqrt(n: int)
    requires
        0 <= n,
    ensures
        is_root(n, isqrt(n)),
        n >= 1 ==> isqrt(n) >= 1,
    decreases n,
{
    if n == 0 {
        assert(is_root(0, 0));
    } else {
        lemma_isqrt(n - 1);
        let r = isqrt(n - 1);
        if (r + 1) * (r + 1) <= n {
            assert(n < (r + 2) * (r + 2)) by (nonlinear_arith)
                requires
                    n - 1 < (r + 1) * (r + 1),
                    0 <= r,
            ;
            assert(is_root(n, r + 1));
        } else {
            assert(is_root(n, r));
        }
        let s = isqrt(n);
        assert(s >= 1) by (nonlinear_arith)
            requires
                n >= 1,
                0 <= s,
                n < (s + 1) * (s + 1),
        ;
    }
}

/// Squared distance of two in-bounds points, computed exactly.
pub fn distance_squared(a: &Vec3, b: &Vec3) -> (r: u128)
    requires
        a.in_bounds(),
        b.in_bounds(),
    ensures
        r as int == dist_sq(*a, *b),
        r <= DIST_SQ_LIMIT,
{
    let dx: i128 = b.x as i128 - a.x as i128;
    let dy: i128 = b.y as i128 - a.y as i128;
    let dz: i128 = b.z as i128 - a.z as i128;
    let lim: i128 = 2_199_023_255_552;
    assert(dx * dx <= lim * lim) by (nonlinear_arith)
        requires
            -lim <= dx <= lim,
    ;
    assert(dy * dy <= lim * lim) by (nonlinear_arith)
        requires
            -lim <= dy <= lim,
    ;
    assert(dz * dz <= lim * lim) by (nonlinear_arith)
        requires
            -lim <= dz <= lim,
    ;
    assert(0 <= dx * dx && 0 <= dy * dy && 0 <= dz * dz) by (nonlinear_arith);
    assert(dx * dx + dy * dy + dz * dz <= DIST_SQ_LIMIT) by (nonlinear_arith)
        requires
            dx * dx <= lim * lim,
            dy * dy <= lim * lim,
            dz * dz <= lim * lim,
            lim == 2_199_023_255_552,
            DIST_SQ_LIMIT == 14507109835375550096474112,
    ;
    let s: i128 = dx * dx + dy * dy + dz * dz;
    s as u128
}

/// Integer square root by bisection.
pub fn integer_sqrt(n: u128) -> (r: u128)
    requires
        n <= DIST_SQ_LIMIT,
    ensures
        is_root(n as int, r as int),
        r as int == isqrt(n as int),
        r <= ROOT_LIMIT,
        n >= 1 ==> r >= 1,
{
    let mut lo: u128 = 0;
    let mut hi: u128 = ROOT_LIMIT;
    assert(n < hi * hi) by (nonlinear_arith)
        requires
            hi == 4398046511104,
            n <= 14507109835375550096474112,
    ;
    while hi - lo > 1
        invariant
            lo < hi <= ROOT_LIMIT,
            lo * lo <= n < hi * hi,
        decreases hi - lo,
    {
        let mid: u128 = lo + (hi - lo) / 2;
        assert(mid * mid <= hi * hi) by (nonlinear_arith)
            requires
                mid <= hi,
        ;
        assert(hi * hi <= 4398046511104 * 4398046511104) by (nonlinear_arith)
            requires
                hi <= 4398046511104,
        ;
        if mid * mid <= n {
            lo = mid;
        } else {
            hi = mid;
        }
    }
    assert(is_root(n as int, lo as int));
    proof {
        lemma_isqrt(n as int);
        lemma_root_unique(n as int, lo as int, isqrt(n as int));
    }
    lo
}

} // verus!
