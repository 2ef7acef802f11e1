use vstd::prelude::*;

verus! {

/// A point of the map, each axis in hundredths of a map unit.
#[derive(Clone, Copy, Debug, PartialEq, Eq, Structural)]
pub struct Coordinate {
    pub x: i32,
    pub y: i32,
}

/// Squared Euclidean distance of two points given by their integer axes.
pub open spec fn sq_dist(ax: int, ay: int, bx: int, by: int) -> int {
    (ax - bx) * (ax - bx) + (ay - by) * (ay - by)
}

/// Squared distance of two coordinates, in squared hundredths.
pub open spec fn dist_sq(a: Coordinate, b: Coordinate) -> int {
    sq_dist(a.x as int, a.y as int, b.x as int, b.y as int)
}

/// Whether two points lie within `radius` of each other (boundary included),
/// compared on squares so that no root is taken.
pub open spec fn within(ax: int, ay: int, bx: int, by: int, radius: int) -> bool {
    radius >= 0 && sq_dist(ax, ay, bx, by) <= radius * radius
}


/// Largest `r <= k` whose square does not exceed `n`.
pub open spec fn sqrt_at_most(n: nat, k: nat) -> nat
    decreases k,
{
    if k == 0 || k * k <= n {
        k
    } else {
        sqrt_at_most(n, (k - 1) as nat)
    }
}

/// The integer square root of `n`: the largest `r` with `r * r <= n`.
pub open spec fn floor_sqrt(n: nat) -> nat {
    sqrt_at_most(n, n)
}

/// Euclidean distance of two coordinates in hundredths, rounded down.
pub open spec fn distance_of(a: Coordinate, b: Coordinate) -> nat {
    floor_sqrt(dist_sq(a, b) as nat)
}

/// Whether `b` lies within `radius` hundredths of `a`, boundary included.
pub open spec fn contains_spec(a: Coordinate, b: Coordinate, radius: int) -> bool {
    within(a.x as int, a.y as int, b.x as int, b.y as int, radius)
}

proof fn lemma_sqrt_at_most_is_root(n: nat, k: nat, r: nat)
    requires
        r * r <= n,
        n < (r + 1) * (r + 1),
        r <= k,
    ensures
        sqrt_at_most(n, k) == r,
    decreases k,
{
    if k > r {
        assert(k * k >= (r + 1) * (r + 1)) by (nonlinear_arith)
            requires
                k >= r + 1,
        ;
        lemma_sqrt_at_most_is_root(n, (k - 1) as nat, r);
    }
}

/// The integer square root is the one `r` with `r * r <= n < (r + 1) * (r + 1)`.
pub proof fn lemma_floor_sqrt_unique(n: nat, r: nat)
    requires
        r * r <= n,
        n < (r + 1) * (r + 1),
    ensures
        floor_sqrt(n) == r,
{
    assert(r <= n) by (nonlinear_arith)
        requires
            r * r <= n,
    ;
    lemma_sqrt_at_most_is_root(n, n, r);
}

pub proof fn lemma_sq_dist_symmetric(ax: int, ay: int, bx: int, by: int)
    ensures
        sq_dist(ax, ay, bx, by) == sq_dist(bx, by, ax, ay),
        sq_dist(ax, ay, ax, ay) == 0,
        sq_dist(ax, ay, bx, by) >= 0,
{
    assert((ax - bx) * (ax - bx) == (bx - ax) * (bx - ax)) by (nonlinear_arith);
    assert((ay - by) * (ay - by) == (by - ay) * (by - ay)) by (nonlinear_arith);
    assert((ax - bx) * (ax - bx) >= 0) by (nonlinear_arith);
    assert((ay - by) * (ay - by) >= 0) by (nonlinear_arith);
}

/// Distance does not depend on the order of its two points, and a point is at
/// distance zero from itself.
pub proof fn lemma_distance_symmetric(a: Coordinate, b: Coordinate)
    ensures
        distance_of(a, b) == distance_of(b, a),
        distance_of(a, a) == 0,
{
    lemma_sq_dist_symmetric(a.x as int, a.y as int, b.x as int, b.y as int);
    assert(sqrt_at_most(0, 0) == 0);
}

/// Containment does not depend on which of the two points is the centre.
pub proof fn lemma_contains_symmetric(a: Coordinate, b: Coordinate, radius: int)
    ensures
        contains_spec(a, b, radius) == contains_spec(b, a, radius),
{
    lemma_sq_dist_symmetric(a.x as int, a.y as int, b.x as int, b.y as int);
}

/// Integer square root of `n`, by bisection.
pub(crate) fn isqrt(n: u128) -> (r: u64)
    requires
        n < 0x4_0000_0000_0000_0000u128,
    ensures
        r == floor_sqrt(n as nat),
{
    let mut lo: u128 = 0;
    let mut hi: u128 = 0x2_0000_0000u128;
    assert(hi * hi == 0x4_0000_0000_0000_0000u128) by (nonlinear_arith)
        requires
            hi == 0x2_0000_0000u128,
    ;
    while hi - lo > 1
        invariant
            lo < hi <= 0x2_0000_0000u128,
            lo * lo <= n,
            n < hi * hi,
        decreases hi - lo,
    {
        let mid: u128 = lo + (hi - lo) / 2;
        assert(mid * mid <= 0x4_0000_0000_0000_0000u128) by (nonlinear_arith)
            requires
                mid <= 0x2_0000_0000u128,
        ;
        if mid * mid <= n {
            lo = mid;
        } else {
            hi = mid;
        }
    }
    proof {
        lemma_floor_sqrt_unique(n as nat, lo as nat);
    }
    lo as u64
}

/// Whether two points lie within `radius` of each other, for points whose axes
/// are bounded well inside `i64`.
pub(crate) fn near(ax: i64, ay: i64, bx: i64, by: i64, radius: i64) -> (r: bool)
    requires
        -0x1000_0000_0000_0000 < ax < 0x1000_0000_0000_0000,
        -0x1000_0000_0000_0000 < ay < 0x1000_0000_0000_0000,
        -0x1000_0000_0000_0000 < bx < 0x1000_0000_0000_0000,
        -0x1000_0000_0000_0000 < by < 0x1000_0000_0000_0000,
        -0x1000_0000_0000_0000 < radius < 0x1000_0000_0000_0000,
    ensures
        r == within(ax as int, ay as int, bx as int, by as int, radius as int),
{
    if radius < 0 {
        return false;
    }
    let dx: i128 = ax as i128 - bx as i128;
    let dy: i128 = ay as i128 - by as i128;
    let rr: i128 = radius as i128;
    assert(dx * dx < 0x4000_0000_0000_0000_0000_0000_0000_0000) by (nonlinear_arith)
        requires
            -0x2000_0000_0000_0000 < dx < 0x2000_0000_0000_0000,
    ;
    assert(dy * dy < 0x4000_0000_0000_0000_0000_0000_0000_0000) by (nonlinear_arith)
        requires
            -0x2000_0000_0000_0000 < dy < 0x2000_0000_0000_0000,
    ;
    assert(rr * rr < 0x4000_0000_0000_0000_0000_0000_0000_0000) by (nonlinear_arith)
        requires
            0 <= rr < 0x2000_0000_0000_0000,
    ;
    assert(dx * dx >= 0 && dy * dy >= 0) by (nonlinear_arith);
    dx * dx + dy * dy <= rr * rr
}

impl Coordinate {
    /// Squared Euclidean distance to `coord2`, in squared hundredths.
    pub fn squared_distance(&self, coord2: &Coordinate) -> (r: u128)
        ensures
            r == dist_sq(*self, *coord2),
            r < 0x2_0000_0000_0000_0000u128,
    {
        let dx: i128 = self.x as i128 - coord2.x as i128;
        let dy: i128 = self.y as i128 - coord2.y as i128;
        assert(0 <= dx * dx <= 0xFFFF_FFFF_FFFF_FFFF) by (nonlinear_arith)
            requires
                -0x1_0000_0000 < dx < 0x1_0000_0000,
        ;
        assert(0 <= dy * dy <= 0xFFFF_FFFF_FFFF_FFFF) by (nonlinear_arith)
            requires
                -0x1_0000_0000 < dy < 0x1_0000_0000,
        ;
        (dx * dx + dy * dy) as u128
    }

    /// Euclidean distance to `coord2`, in hundredths, rounded down.
    pub fn distance(&self, coord2: &Coordinate) -> (r: u64)
        ensures
            r == distance_of(*self, *coord2),
    {
        isqrt(self.squared_distance(coord2))
    }

    /// Whether `coord2` lies within `radius` hundredths of this point, boundary
    /// included. The order of the two points does not matter.
    pub fn contains(&self, coord2: &Coordinate, radius: u32) -> (r: bool)
        ensures
            r == contains_spec(*self, *coord2, radius as int),
    {
        near(self.x as i64, self.y as i64, coord2.x as i64, coord2.y as i64, radius as i64)
    }
}

} // verus!
