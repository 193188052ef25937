//! Integer points and vectors, with the exact arithmetic the rest of the
//! crate builds on.
//!
//! Coordinates live on a grid of `i64` units and are kept within
//! [`COORD_LIMIT`], so that every derived quantity (edge vectors, cross
//! products, dot products, plane offsets) fits comfortably in the integer
//! types it is computed in.  The proofs below establish those range facts
//! once, so the geometric code can state its contracts purely in terms of
//! the mathematical operations.

use vstd::arithmetic::div_mod::{lemma_div_pos_is_pos, lemma_fundamental_div_mod, lemma_mod_bound};
use vstd::prelude::*;

verus! {

/// Largest coordinate magnitude a shape vertex may have, in grid units
/// (2^20).
pub const COORD_LIMIT: i64 = 0x10_0000;

/// Largest magnitude a plane normal component may have (2^43).  A normal
/// derived as the cross product of two in-range edge vectors always
/// satisfies this.
pub const NORMAL_LIMIT: i64 = 0x800_0000_0000;

/// Largest magnitude a plane offset may have (3 * 2^63).  An offset derived
/// as the dot product of an in-range normal and an in-range point always
/// satisfies this.
pub const OFFSET_LIMIT: i128 = 0x1_8000_0000_0000_0000;

/// Largest classification tolerance, in grid units (2^20).
pub const EPSILON_LIMIT: i64 = 0x10_0000;

/// A point in 3D space, in grid units.
#[derive(Clone, Copy, PartialEq, Eq, Structural, Debug, Hash)]
pub struct Point3 {
    pub x: i64,
    pub y: i64,
    pub z: i64,
}

/// A vector in 3D space, in grid units.
#[derive(Clone, Copy, PartialEq, Eq, Structural, Debug, Hash)]
pub struct Vector3 {
    pub x: i64,
    pub y: i64,
    pub z: i64,
}

/// Absolute value of a mathematical integer.
pub open spec fn iabs(a: int) -> int {
    if a >= 0 {
        a
    } else {
        -a
    }
}

/// Dot product of a vector and a point's coordinates.
pub open spec fn dot_vp(n: Vector3, p: Point3) -> int {
    n.x * p.x + n.y * p.y + n.z * p.z
}

/// Dot product of two vectors.
pub open spec fn dot_vv(a: Vector3, b: Vector3) -> int {
    a.x * b.x + a.y * b.y + a.z * b.z
}

/// Components of the cross product `a x b`.
pub open spec fn cross_x(a: Vector3, b: Vector3) -> int {
    a.y * b.z - a.z * b.y
}

pub open spec fn cross_y(a: Vector3, b: Vector3) -> int {
    a.z * b.x - a.x * b.z
}

pub open spec fn cross_z(a: Vector3, b: Vector3) -> int {
    a.x * b.y - a.y * b.x
}

/// 1-norm of a vector: the sum of the component magnitudes.
pub open spec fn norm1(v: Vector3) -> int {
    iabs(v.x as int) + iabs(v.y as int) + iabs(v.z as int)
}

pub open spec fn is_zero_vector(v: Vector3) -> bool {
    v.x == 0 && v.y == 0 && v.z == 0
}

/// Whether a point lies within the supported coordinate grid.
pub open spec fn in_coord_range(p: Point3) -> bool {
    &&& -COORD_LIMIT <= p.x <= COORD_LIMIT
    &&& -COORD_LIMIT <= p.y <= COORD_LIMIT
    &&& -COORD_LIMIT <= p.z <= COORD_LIMIT
}

/// Whether a vector could be the difference of two in-range points.
pub open spec fn in_edge_range(v: Vector3) -> bool {
    &&& -2 * COORD_LIMIT <= v.x <= 2 * COORD_LIMIT
    &&& -2 * COORD_LIMIT <= v.y <= 2 * COORD_LIMIT
    &&& -2 * COORD_LIMIT <= v.z <= 2 * COORD_LIMIT
}

/// Whether a vector is within the range allowed for plane normals.
pub open spec fn in_normal_range(v: Vector3) -> bool {
    &&& -NORMAL_LIMIT <= v.x <= NORMAL_LIMIT
    &&& -NORMAL_LIMIT <= v.y <= NORMAL_LIMIT
    &&& -NORMAL_LIMIT <= v.z <= NORMAL_LIMIT
}

/// Truncating division (rounding toward zero), for a positive divisor.
/// This is the rounding rule the executable intersection code uses.
pub open spec fn div_trunc(a: int, b: int) -> int
    recommends
        b > 0,
{
    if a >= 0 {
        a / b
    } else {
        -((-a) / b)
    }
}

/// The product of two bounded integers is bounded by the product of the bounds.
pub proof fn lemma_mul_bound(a: int, b: int, am: int, bm: int)
    requires
        -am <= a <= am,
        -bm <= b <= bm,
    ensures
        -(am * bm) <= a * b <= am * bm,
{
    assert(-(am * bm) <= a * b <= am * bm) by (nonlinear_arith)
        requires
            -am <= a <= am,
            -bm <= b <= bm,
    ;
}

/// Truncating division lands within `b - 1` of the exact quotient, on the
/// side of zero, and never overshoots the dividend.
pub proof fn lemma_div_trunc_close(a: int, b: int)
    requires
        b > 0,
    ensures
        -(b - 1) <= a - b * div_trunc(a, b) <= b - 1,
        a >= 0 ==> 0 <= b * div_trunc(a, b) <= a && 0 <= div_trunc(a, b),
        a <= 0 ==> a <= b * div_trunc(a, b) <= 0 && div_trunc(a, b) <= 0,
{
    if a >= 0 {
        lemma_fundamental_div_mod(a, b);
        lemma_mod_bound(a, b);
        lemma_div_pos_is_pos(a, b);
        assert(b * div_trunc(a, b) == a - a % b);
        assert(0 <= b * (a / b)) by (nonlinear_arith)
            requires
                b > 0,
                a / b >= 0,
        ;
        if a == 0 {
            assert(b * div_trunc(a, b) == 0);
            assert(div_trunc(a, b) == 0) by (nonlinear_arith)
                requires
                    b > 0,
                    b * div_trunc(a, b) == 0,
            ;
        }
    } else {
        lemma_fundamental_div_mod(-a, b);
        lemma_mod_bound(-a, b);
        lemma_div_pos_is_pos(-a, b);
        assert((-a) == b * ((-a) / b) + (-a) % b);
        assert(b * div_trunc(a, b) == b * (-((-a) / b)));
        assert(b * (-((-a) / b)) == -(b * ((-a) / b))) by (nonlinear_arith);
        assert(0 <= b * ((-a) / b)) by (nonlinear_arith)
            requires
                b > 0,
                (-a) / b >= 0,
        ;
        assert(b * div_trunc(a, b) == a + (-a) % b);
    }
}

/// If the dividend is bounded by `b * m`, the truncated quotient is bounded
/// by `m`.
pub proof fn lemma_div_trunc_bounded(a: int, b: int, m: int)
    requires
        b > 0,
        0 <= m,
        -(b * m) <= a <= b * m,
    ensures
        -m <= div_trunc(a, b) <= m,
{
    lemma_div_trunc_close(a, b);
    let q = div_trunc(a, b);
    if q > m {
        assert(b * q >= b * (m + 1)) by (nonlinear_arith)
            requires
                b > 0,
                q >= m + 1,
        ;
        assert(b * (m + 1) == b * m + b) by (nonlinear_arith);
        assert(false);
    }
    if q < -m {
        assert(b * q <= b * (-m - 1)) by (nonlinear_arith)
            requires
                b > 0,
                q <= -m - 1,
        ;
        assert(b * (-m - 1) == -(b * m) - b) by (nonlinear_arith);
        assert(false);
    }
}

impl Point3 {
    /// Builds a point from its grid coordinates.
    pub fn new(x: i64, y: i64, z: i64) -> (r: Point3)
        ensures
            r == (Point3 { x, y, z }),
    {
        Point3 { x, y, z }
    }

    /// The vector from `other` to `self`.
    pub fn sub(&self, other: &Point3) -> (r: Vector3)
        requires
            in_coord_range(*self),
            in_coord_range(*other),
        ensures
            r.x == self.x - other.x,
            r.y == self.y - other.y,
            r.z == self.z - other.z,
            in_edge_range(r),
    {
        Vector3 { x: self.x - other.x, y: self.y - other.y, z: self.z - other.z }
    }
}

impl Vector3 {
    /// Builds a vector from its grid components.
    pub fn new(x: i64, y: i64, z: i64) -> (r: Vector3)
        ensures
            r == (Vector3 { x, y, z }),
    {
        Vector3 { x, y, z }
    }

    /// The component-wise negation.
    pub fn neg(&self) -> (r: Vector3)
        requires
            in_normal_range(*self),
        ensures
            r.x == -self.x,
            r.y == -self.y,
            r.z == -self.z,
            in_normal_range(r),
    {
        Vector3 { x: -self.x, y: -self.y, z: -self.z }
    }
}

/// Exact dot product of an in-range normal with an arbitrary point.
pub fn dot_point(n: &Vector3, p: &Point3) -> (r: i128)
    requires
        in_normal_range(*n),
    ensures
        r == dot_vp(*n, *p),
{
    proof {
        lemma_mul_bound(n.x as int, p.x as int, NORMAL_LIMIT as int, 0x8000_0000_0000_0000);
        lemma_mul_bound(n.y as int, p.y as int, NORMAL_LIMIT as int, 0x8000_0000_0000_0000);
        lemma_mul_bound(n.z as int, p.z as int, NORMAL_LIMIT as int, 0x8000_0000_0000_0000);
    }
    (n.x as i128) * (p.x as i128) + (n.y as i128) * (p.y as i128) + (n.z as i128) * (p.z as i128)
}

/// Exact dot product of two in-range normals.
pub fn dot_vector(a: &Vector3, b: &Vector3) -> (r: i128)
    requires
        in_normal_range(*a),
        in_normal_range(*b),
    ensures
        r == dot_vv(*a, *b),
{
    proof {
        lemma_mul_bound(a.x as int, b.x as int, NORMAL_LIMIT as int, NORMAL_LIMIT as int);
        lemma_mul_bound(a.y as int, b.y as int, NORMAL_LIMIT as int, NORMAL_LIMIT as int);
        lemma_mul_bound(a.z as int, b.z as int, NORMAL_LIMIT as int, NORMAL_LIMIT as int);
    }
    (a.x as i128) * (b.x as i128) + (a.y as i128) * (b.y as i128) + (a.z as i128) * (b.z as i128)
}

/// Exact cross product of two edge vectors.
pub fn cross(a: &Vector3, b: &Vector3) -> (r: Vector3)
    requires
        in_edge_range(*a),
        in_edge_range(*b),
    ensures
        r.x == cross_x(*a, *b),
        r.y == cross_y(*a, *b),
        r.z == cross_z(*a, *b),
        in_normal_range(r),
{
    proof {
        lemma_mul_bound(a.x as int, b.y as int, 0x20_0000, 0x20_0000);
        lemma_mul_bound(a.x as int, b.z as int, 0x20_0000, 0x20_0000);
        lemma_mul_bound(a.y as int, b.x as int, 0x20_0000, 0x20_0000);
        lemma_mul_bound(a.y as int, b.z as int, 0x20_0000, 0x20_0000);
        lemma_mul_bound(a.z as int, b.x as int, 0x20_0000, 0x20_0000);
        lemma_mul_bound(a.z as int, b.y as int, 0x20_0000, 0x20_0000);
    }
    Vector3 {
        x: a.y * b.z - a.z * b.y,
        y: a.z * b.x - a.x * b.z,
        z: a.x * b.y - a.y * b.x,
    }
}

/// Exact 1-norm of an in-range normal.
pub fn norm1_of(v: &Vector3) -> (r: i64)
    requires
        in_normal_range(*v),
    ensures
        r == norm1(*v),
{
    let ax = if v.x >= 0 { v.x } else { -v.x };
    let ay = if v.y >= 0 { v.y } else { -v.y };
    let az = if v.z >= 0 { v.z } else { -v.z };
    ax + ay + az
}

/// Truncating division on machine integers, for a positive divisor.
pub fn div_trunc_i128(a: i128, b: i128) -> (r: i128)
    requires
        b > 0,
        a > i128::MIN,
    ensures
        r == div_trunc(a as int, b as int),
{
    if a >= 0 {
        let q = (a as u128) / (b as u128);
        proof {
            lemma_fundamental_div_mod(a as int, b as int);
            lemma_mod_bound(a as int, b as int);
        }
        q as i128
    } else {
        let q = ((-a) as u128) / (b as u128);
        proof {
            lemma_fundamental_div_mod(-(a as int), b as int);
            lemma_mod_bound(-(a as int), b as int);
        }
        -(q as i128)
    }
}

} // verus!
