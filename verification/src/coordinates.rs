//! Points of the plane and the distance between them.

use crate::fixed::{ceil_sqrt, is_ceil_sqrt, lemma_ceil_sqrt_unique};
use vstd::prelude::*;

verus! {

/// The largest magnitude of a coordinate.
pub const COORDINATE_LIMIT: i64 = 0x4000_0000_0000_0000;

/// The least non-negative integer whose square reaches `n`.
pub closed spec fn ceil_sqrt_spec(n: int) -> int {
    choose|r: int| is_ceil_sqrt(n, r)
}

/// Every natural number has a ceiling square root.
pub proof fn lemma_ceil_sqrt_exists(n: nat)
    ensures
        is_ceil_sqrt(n as int, ceil_sqrt_spec(n as int)),
    decreases n,
{
    if n == 0 {
        assert(is_ceil_sqrt(0, 0));
    } else {
        lemma_ceil_sqrt_exists((n - 1) as nat);
        let r: int = ceil_sqrt_spec(n - 1);
        if r * r >= n {
            assert(is_ceil_sqrt(n as int, r));
        } else {
            assert((r + 1) * (r + 1) == r * r + 2 * r + 1) by (nonlinear_arith);
            assert(is_ceil_sqrt(n as int, r + 1));
        }
    }
}

/// [`ceil_sqrt_spec`] is the only ceiling square root.
pub proof fn lemma_ceil_sqrt_is(n: int, r: int)
    requires
        is_ceil_sqrt(n, r),
    ensures
        ceil_sqrt_spec(n) == r,
{
    lemma_ceil_sqrt_unique(n, r, ceil_sqrt_spec(n));
}

/// The square of the Euclidean distance between two points.
pub open spec fn squared_distance(a: (int, int), b: (int, int)) -> int {
    (a.0 - b.0) * (a.0 - b.0) + (a.1 - b.1) * (a.1 - b.1)
}

/// The Euclidean distance between two points, rounded up to the next
/// billionth.
pub open spec fn distance(a: (int, int), b: (int, int)) -> int {
    ceil_sqrt_spec(squared_distance(a, b))
}

/// A squared distance is never negative.
pub proof fn lemma_squared_distance_nonnegative(a: (int, int), b: (int, int))
    ensures
        squared_distance(a, b) >= 0,
{
    assert((a.0 - b.0) * (a.0 - b.0) >= 0) by (nonlinear_arith);
    assert((a.1 - b.1) * (a.1 - b.1) >= 0) by (nonlinear_arith);
}

/// The distance is the rounded-up root of the squared distance.
pub proof fn lemma_distance_is_root(a: (int, int), b: (int, int))
    ensures
        is_ceil_sqrt(squared_distance(a, b), distance(a, b)),
{
    lemma_squared_distance_nonnegative(a, b);
    lemma_ceil_sqrt_exists(squared_distance(a, b) as nat);
}

/// The distance from `a` to `b` is the distance from `b` to `a`.
pub proof fn lemma_distance_symmetric(a: (int, int), b: (int, int))
    ensures
        distance(a, b) == distance(b, a),
{
    assert((a.0 - b.0) * (a.0 - b.0) == (b.0 - a.0) * (b.0 - a.0)) by (nonlinear_arith);
    assert((a.1 - b.1) * (a.1 - b.1) == (b.1 - a.1) * (b.1 - a.1)) by (nonlinear_arith);
}

/// The distance is 0 between a point and itself, and between no other two.
pub proof fn lemma_distance_zero(a: (int, int), b: (int, int))
    ensures
        distance(a, a) == 0,
        distance(a, b) == 0 <==> a == b,
{
    assert(is_ceil_sqrt(squared_distance(a, a), 0));
    lemma_ceil_sqrt_is(squared_distance(a, a), 0);
    lemma_distance_is_root(a, b);
    if distance(a, b) == 0 {
        let dx: int = a.0 - b.0;
        let dy: int = a.1 - b.1;
        assert(dx * dx + dy * dy <= 0);
        assert(dx * dx >= 0 && dy * dy >= 0) by (nonlinear_arith);
        assert(dx == 0) by (nonlinear_arith)
            requires
                dx * dx == 0,
        ;
        assert(dy == 0) by (nonlinear_arith)
            requires
                dy * dy == 0,
        ;
    }
}

/// The product of two sums of two squares bounds the square of the inner
/// product.
proof fn lemma_inner_product(u1: int, v1: int, u2: int, v2: int)
    ensures
        (u1 * u2 + v1 * v2) * (u1 * u2 + v1 * v2) <= (u1 * u1 + v1 * v1) * (u2 * u2 + v2 * v2),
{
    let a2: int = u1 * u1;
    let b2: int = v1 * v1;
    let c2: int = u2 * u2;
    let d2: int = v2 * v2;
    let ac: int = u1 * u2;
    let bd: int = v1 * v2;
    let ad: int = u1 * v2;
    let bc: int = v1 * u2;
    assert((a2 + b2) * (c2 + d2) == a2 * c2 + a2 * d2 + b2 * c2 + b2 * d2) by (nonlinear_arith);
    assert(a2 * c2 == ac * ac) by (nonlinear_arith)
        requires
            a2 == u1 * u1,
            c2 == u2 * u2,
            ac == u1 * u2,
    ;
    assert(b2 * d2 == bd * bd) by (nonlinear_arith)
        requires
            b2 == v1 * v1,
            d2 == v2 * v2,
            bd == v1 * v2,
    ;
    assert(a2 * d2 == ad * ad) by (nonlinear_arith)
        requires
            a2 == u1 * u1,
            d2 == v2 * v2,
            ad == u1 * v2,
    ;
    assert(b2 * c2 == bc * bc) by (nonlinear_arith)
        requires
            b2 == v1 * v1,
            c2 == u2 * u2,
            bc == v1 * u2,
    ;
    assert(ad * bc == ac * bd) by (nonlinear_arith)
        requires
            ad == u1 * v2,
            bc == v1 * u2,
            ac == u1 * u2,
            bd == v1 * v2,
    ;
    assert((ac + bd) * (ac + bd) == ac * ac + 2 * (ac * bd) + bd * bd) by (nonlinear_arith);
    assert((ad - bc) * (ad - bc) == ad * ad - 2 * (ad * bc) + bc * bc) by (nonlinear_arith);
    assert((ad - bc) * (ad - bc) >= 0) by (nonlinear_arith);
}

/// The way from `a` to `b` through a third point `c` is never shorter than
/// the direct way.
pub proof fn lemma_distance_triangle(a: (int, int), b: (int, int), c: (int, int))
    ensures
        distance(a, b) <= distance(a, c) + distance(c, b),
{
    let u1: int = a.0 - c.0;
    let v1: int = a.1 - c.1;
    let u2: int = c.0 - b.0;
    let v2: int = c.1 - b.1;
    let p: int = distance(a, c);
    let q: int = distance(c, b);
    let n1: int = u1 * u1 + v1 * v1;
    let n2: int = u2 * u2 + v2 * v2;
    let dot: int = u1 * u2 + v1 * v2;
    lemma_distance_is_root(a, c);
    lemma_distance_is_root(c, b);
    lemma_distance_is_root(a, b);
    lemma_squared_distance_nonnegative(a, c);
    lemma_squared_distance_nonnegative(c, b);
    assert(squared_distance(a, c) == n1);
    assert(squared_distance(c, b) == n2);
    lemma_inner_product(u1, v1, u2, v2);
    assert(dot * dot <= n1 * n2);
    assert(n1 * n2 <= (p * p) * (q * q)) by (nonlinear_arith)
        requires
            0 <= n1 <= p * p,
            0 <= n2 <= q * q,
    ;
    assert((p * p) * (q * q) == (p * q) * (p * q)) by (nonlinear_arith);
    assert(dot <= p * q) by (nonlinear_arith)
        requires
            dot * dot <= (p * q) * (p * q),
            0 <= p,
            0 <= q,
    ;
    assert(squared_distance(a, b) == n1 + n2 + 2 * dot) by (nonlinear_arith)
        requires
            squared_distance(a, b) == (a.0 - b.0) * (a.0 - b.0) + (a.1 - b.1) * (a.1 - b.1),
            u1 == a.0 - c.0,
            v1 == a.1 - c.1,
            u2 == c.0 - b.0,
            v2 == c.1 - b.1,
            n1 == u1 * u1 + v1 * v1,
            n2 == u2 * u2 + v2 * v2,
            dot == u1 * u2 + v1 * v2,
    ;
    assert((p + q) * (p + q) == p * p + q * q + 2 * (p * q)) by (nonlinear_arith);
    assert(squared_distance(a, b) <= (p + q) * (p + q));
    let d: int = distance(a, b);
    if d > p + q {
        assert((p + q) * (p + q) <= (d - 1) * (d - 1)) by (nonlinear_arith)
            requires
                0 <= p + q <= d - 1,
        ;
    }
}

/// A point of the plane; both coordinates are fixed-point numbers of
/// magnitude at most [`COORDINATE_LIMIT`].
#[derive(Debug, Clone, Copy)]
pub struct Coordinate {
    x: i64,
    y: i64,
}

impl View for Coordinate {
    type V = (int, int);

    closed spec fn view(&self) -> (int, int) {
        (self.x as int, self.y as int)
    }
}

impl Coordinate {
    #[verifier::type_invariant]
    spec fn within_limits(self) -> bool {
        &&& -COORDINATE_LIMIT <= self.x <= COORDINATE_LIMIT
        &&& -COORDINATE_LIMIT <= self.y <= COORDINATE_LIMIT
    }

    /// The point `(x, y)`.
    #[must_use]
    pub fn new(x: i64, y: i64) -> (c: Self)
        requires
            -COORDINATE_LIMIT <= x <= COORDINATE_LIMIT,
            -COORDINATE_LIMIT <= y <= COORDINATE_LIMIT,
        ensures
            c@ == (x as int, y as int),
    {
        Self { x, y }
    }

    /// The Euclidean distance to `other`, rounded up to the next billionth.
    #[must_use]
    pub fn distance_to(&self, other: &Coordinate) -> (d: u64)
        ensures
            d == distance(self@, other@),
    {
        proof {
            use_type_invariant(self);
            use_type_invariant(other);
        }
        let dx: u128 = gap(self.x, other.x);
        let dy: u128 = gap(self.y, other.y);
        assert(dx * dx <= 0x8000_0000_0000_0000 * 0x8000_0000_0000_0000) by (nonlinear_arith)
            requires
                0 <= dx <= 0x8000_0000_0000_0000,
        ;
        assert(dy * dy <= 0x8000_0000_0000_0000 * 0x8000_0000_0000_0000) by (nonlinear_arith)
            requires
                0 <= dy <= 0x8000_0000_0000_0000,
        ;
        let square: u128 = dx * dx + dy * dy;
        proof {
            let sx: int = self.x - other.x;
            let sy: int = self.y - other.y;
            assert(dx * dx == sx * sx) by (nonlinear_arith)
                requires
                    dx == sx || dx == -sx,
            ;
            assert(dy * dy == sy * sy) by (nonlinear_arith)
                requires
                    dy == sy || dy == -sy,
            ;
            assert(square == squared_distance(self@, other@));
        }
        let d: u128 = ceil_sqrt(square);
        proof {
            lemma_ceil_sqrt_is(square as int, d as int);
            if d > u64::MAX {
                assert((d - 1) * (d - 1) >= 0xffff_ffff_ffff_ffff * 0xffff_ffff_ffff_ffff)
                    by (nonlinear_arith)
                    requires
                        d - 1 >= 0xffff_ffff_ffff_ffff,
                ;
            }
        }
        d as u64
    }
}

/// The magnitude of `a - b`.
fn gap(a: i64, b: i64) -> (r: u128)
    requires
        -COORDINATE_LIMIT <= a <= COORDINATE_LIMIT,
        -COORDINATE_LIMIT <= b <= COORDINATE_LIMIT,
    ensures
        r == a - b || r == b - a,
        0 <= r <= 0x8000_0000_0000_0000,
{
    if a >= b {
        (a as i128 - b as i128) as u128
    } else {
        (b as i128 - a as i128) as u128
    }
}

} // verus!
