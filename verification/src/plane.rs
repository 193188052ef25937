//! Oriented planes and the tri-state point classification they induce.
//!
//! A plane is stored as an (unnormalized) integer normal `n` and an exact
//! offset `d`, describing the point set `n . p == d`.  The signed distance
//! of a point is `n . p - d`, measured in units of the normal's length.
//! Classification therefore compares the signed distance against
//! `epsilon * norm1(n)`: a tolerance of `epsilon` grid units, independent
//! of the normal's magnitude, so that scaled versions of the same plane
//! classify every point identically.

use crate::geom::{
    cross, cross_x, cross_y, cross_z, div_trunc, dot_point, dot_vector, dot_vp, dot_vv, iabs,
    in_coord_range, in_edge_range, in_normal_range, is_zero_vector, lemma_div_trunc_bounded,
    lemma_div_trunc_close, lemma_mul_bound, norm1, norm1_of, Point3, Vector3, COORD_LIMIT,
    EPSILON_LIMIT, NORMAL_LIMIT, OFFSET_LIMIT,
};
use vstd::arithmetic::mul::lemma_mul_nonnegative;
use vstd::prelude::*;

verus! {

/// Default classification tolerance, in grid units.  Points within one grid
/// unit of a plane count as lying on it; this also absorbs the rounding of
/// computed intersection points, which is always below one grid unit.
pub const PLANE_EPSILON: i64 = 1;

/// Which side of a plane a point lies on.
#[derive(Debug, Clone, Copy, PartialEq, Eq, Structural)]
pub enum PlaneSide {
    /// Point is in front of the plane (positive side of the normal).
    Front,
    /// Point is behind the plane (negative side of the normal).
    Back,
    /// Point lies on the plane (within the epsilon tolerance).
    OnPlane,
}

/// Classification of a whole shape relative to a plane.
#[derive(Debug, Clone, Copy, PartialEq, Eq, Structural)]
pub enum Classification {
    /// All vertices are in front of the plane.
    Front,
    /// All vertices are behind the plane.
    Back,
    /// All vertices are on the plane.
    Coplanar,
    /// Vertices lie on both sides (the shape spans the plane).
    Spanning,
}

/// Exchanges front and back; on-plane stays on-plane.
pub open spec fn mirror_side(s: PlaneSide) -> PlaneSide {
    match s {
        PlaneSide::Front => PlaneSide::Back,
        PlaneSide::Back => PlaneSide::Front,
        PlaneSide::OnPlane => PlaneSide::OnPlane,
    }
}

/// A plane in 3D space, represented as `normal . point == offset`.
#[derive(Debug, Clone, Copy, PartialEq, Eq, Structural)]
pub struct Plane3D {
    pub normal: Vector3,
    pub offset: i128,
}

impl Plane3D {
    /// A usable plane: nonzero normal within the ranges the arithmetic
    /// supports.
    pub open spec fn wf(self) -> bool {
        &&& in_normal_range(self.normal)
        &&& !is_zero_vector(self.normal)
        &&& -OFFSET_LIMIT <= self.offset <= OFFSET_LIMIT
    }

    /// Signed distance of a point, in units of the normal's length.
    pub open spec fn spec_signed_distance(self, p: Point3) -> int {
        dot_vp(self.normal, p) - self.offset
    }

    /// The classification threshold for a tolerance of `eps` grid units.
    pub open spec fn spec_threshold(self, eps: int) -> int {
        eps * norm1(self.normal)
    }

    /// Which side a point falls on, for a tolerance of `eps` grid units.
    pub open spec fn spec_side(self, p: Point3, eps: int) -> PlaneSide {
        let s = self.spec_signed_distance(p);
        if s > self.spec_threshold(eps) {
            PlaneSide::Front
        } else if s < -self.spec_threshold(eps) {
            PlaneSide::Back
        } else {
            PlaneSide::OnPlane
        }
    }

    /// The point where the segment from `a` to `b` meets the plane, rounded
    /// to the grid, given the signed distances `da` of `a` and `db` of `b`
    /// with `da > 0 > db`.
    pub open spec fn spec_cut_point(self, a: Point3, b: Point3) -> Point3 {
        let da = self.spec_signed_distance(a);
        let db = self.spec_signed_distance(b);
        let w = da - db;
        Point3 {
            x: (a.x + div_trunc(da * (b.x - a.x), w)) as i64,
            y: (a.y + div_trunc(da * (b.y - a.y), w)) as i64,
            z: (a.z + div_trunc(da * (b.z - a.z), w)) as i64,
        }
    }

    /// Creates a new plane from a normal vector and offset.
    pub fn new(normal: Vector3, offset: i128) -> (r: Plane3D)
        requires
            in_normal_range(normal),
            !is_zero_vector(normal),
            -OFFSET_LIMIT <= offset <= OFFSET_LIMIT,
        ensures
            r == (Plane3D { normal, offset }),
            r.wf(),
    {
        Plane3D { normal, offset }
    }

    /// Creates the plane through `point` with the given normal.
    ///
    /// The defining point has signed distance exactly zero, so it lies on
    /// the plane for every tolerance.
    pub fn from_point_and_normal(point: &Point3, normal: &Vector3) -> (r: Plane3D)
        requires
            in_coord_range(*point),
            in_normal_range(*normal),
            !is_zero_vector(*normal),
        ensures
            r.normal == *normal,
            r.offset == dot_vp(*normal, *point),
            r.wf(),
            r.spec_signed_distance(*point) == 0,
            forall|eps: int| 0 <= eps ==> r.spec_side(*point, eps) == PlaneSide::OnPlane,
    {
        proof {
            lemma_mul_bound(normal.x as int, point.x as int, NORMAL_LIMIT as int, COORD_LIMIT as int);
            lemma_mul_bound(normal.y as int, point.y as int, NORMAL_LIMIT as int, COORD_LIMIT as int);
            lemma_mul_bound(normal.z as int, point.z as int, NORMAL_LIMIT as int, COORD_LIMIT as int);
        }
        let offset = dot_point(normal, point);
        let r = Plane3D { normal: *normal, offset };
        proof {
            assert forall|eps: int| 0 <= eps implies r.spec_side(*point, eps)
                == PlaneSide::OnPlane by {
                lemma_norm1_nonnegative(r.normal);
                lemma_mul_nonnegative(eps, norm1(r.normal));
            }
        }
        r
    }

    /// Creates the plane through three non-collinear points.  The normal
    /// follows the right-hand rule: `(b - a) x (c - a)`.
    pub fn from_three_points(a: &Point3, b: &Point3, c: &Point3) -> (r: Plane3D)
        requires
            in_coord_range(*a),
            in_coord_range(*b),
            in_coord_range(*c),
            !spec_collinear(*a, *b, *c),
        ensures
            r.normal.x == tri_nx(*a, *b, *c),
            r.normal.y == tri_ny(*a, *b, *c),
            r.normal.z == tri_nz(*a, *b, *c),
            r.offset == dot_vp(r.normal, *a),
            r.wf(),
            r.spec_signed_distance(*a) == 0,
    {
        let ab = b.sub(a);
        let ac = c.sub(a);
        let normal = cross(&ab, &ac);
        Plane3D::from_point_and_normal(a, &normal)
    }

    /// Returns the normal vector of the plane.
    pub fn normal(&self) -> (r: Vector3)
        ensures
            r == self.normal,
    {
        self.normal
    }

    /// Returns the plane's offset: the dot product of the normal with any
    /// point on the plane.
    pub fn offset(&self) -> (r: i128)
        ensures
            r == self.offset,
    {
        self.offset
    }

    /// Computes the signed distance from a point to the plane, in units of
    /// the normal's length: positive in front, negative behind.
    pub fn signed_distance(&self, point: &Point3) -> (r: i128)
        requires
            self.wf(),
        ensures
            r == self.spec_signed_distance(*point),
    {
        proof {
            lemma_dot_vp_in_i128(self.normal, *point);
        }
        dot_point(&self.normal, point) - self.offset
    }

    /// Classifies which side of the plane a point lies on, using the
    /// default `PLANE_EPSILON` tolerance.
    pub fn classify_point(&self, point: &Point3) -> (r: PlaneSide)
        requires
            self.wf(),
        ensures
            r == self.spec_side(*point, PLANE_EPSILON as int),
    {
        self.classify_point_with_epsilon(point, PLANE_EPSILON)
    }

    /// Classifies which side of the plane a point lies on, with a custom
    /// tolerance of `epsilon` grid units.
    pub fn classify_point_with_epsilon(&self, point: &Point3, epsilon: i64) -> (r: PlaneSide)
        requires
            self.wf(),
            0 <= epsilon <= EPSILON_LIMIT,
        ensures
            r == self.spec_side(*point, epsilon as int),
    {
        let dist = self.signed_distance(point);
        let n1 = norm1_of(&self.normal);
        proof {
            lemma_mul_bound(epsilon as int, n1 as int, EPSILON_LIMIT as int, 3 * (
            NORMAL_LIMIT as int));
        }
        let threshold = (epsilon as i128) * (n1 as i128);
        if dist > threshold {
            PlaneSide::Front
        } else if dist < -threshold {
            PlaneSide::Back
        } else {
            PlaneSide::OnPlane
        }
    }

    /// Returns the plane facing the opposite direction.
    ///
    /// Flipping is antisymmetric: every strictly front point of the
    /// original is a strictly back point of the flipped plane and vice
    /// versa, while on-plane points stay on-plane, at every tolerance.
    pub fn flipped(&self) -> (r: Plane3D)
        requires
            self.wf(),
        ensures
            r.normal.x == -self.normal.x,
            r.normal.y == -self.normal.y,
            r.normal.z == -self.normal.z,
            r.offset == -self.offset,
            r.wf(),
            forall|p: Point3| #[trigger]
                r.spec_signed_distance(p) == -self.spec_signed_distance(p),
            forall|p: Point3, eps: int|
                0 <= eps ==> #[trigger] r.spec_side(p, eps) == mirror_side(
                    self.spec_side(p, eps),
                ),
    {
        let r = Plane3D { normal: self.normal.neg(), offset: -self.offset };
        proof {
            assert forall|p: Point3| #[trigger]
                r.spec_signed_distance(p) == -self.spec_signed_distance(p) by {
                assert(dot_vp(r.normal, p) == -dot_vp(self.normal, p)) by (nonlinear_arith)
                    requires
                        r.normal.x == -self.normal.x,
                        r.normal.y == -self.normal.y,
                        r.normal.z == -self.normal.z,
                ;
            }
            assert(norm1(r.normal) == norm1(self.normal));
            assert forall|p: Point3, eps: int|
                0 <= eps implies #[trigger] r.spec_side(p, eps) == mirror_side(
                self.spec_side(p, eps),
            ) by {
                assert(r.spec_signed_distance(p) == -self.spec_signed_distance(p));
            }
        }
        r
    }

    /// Projects a point onto the plane: the closest grid point to the exact
    /// perpendicular foot, rounded toward the original point.
    ///
    /// Requires the plane to pass through the supported coordinate grid, so
    /// that the projection itself is representable.
    pub fn project_point(&self, point: &Point3) -> (r: Point3)
        requires
            self.wf(),
            in_coord_range(*point),
            -norm1(self.normal) * COORD_LIMIT <= self.offset
                <= norm1(self.normal) * COORD_LIMIT,
        ensures
            ({
                let s = self.spec_signed_distance(*point);
                let nn = dot_vv(self.normal, self.normal);
                &&& r.x == point.x - div_trunc(s * self.normal.x, nn)
                &&& r.y == point.y - div_trunc(s * self.normal.y, nn)
                &&& r.z == point.z - div_trunc(s * self.normal.z, nn)
            }),
    {
        let s = self.signed_distance(point);
        let nn = dot_vector(&self.normal, &self.normal);
        proof {
            lemma_norm1_positive(self.normal);
            lemma_norm_sq_bounds(self.normal);
            lemma_project_term_bounds(*self, *point);
        }
        let qx = crate::geom::div_trunc_i128(s * (self.normal.x as i128), nn);
        let qy = crate::geom::div_trunc_i128(s * (self.normal.y as i128), nn);
        let qz = crate::geom::div_trunc_i128(s * (self.normal.z as i128), nn);
        Point3 { x: point.x - (qx as i64), y: point.y - (qy as i64), z: point.z - (qz as i64) }
    }

    /// Computes the intersection of a line segment with the plane.
    ///
    /// Returns `Some((num, den, point))` where `num / den` (with
    /// `0 <= num <= den`, `den > 0`) is the exact interpolation parameter
    /// from `start` to `end`, and `point` is the intersection rounded to the
    /// grid (each coordinate truncated toward `start`).  Returns `None` if
    /// the segment is parallel to the plane or the intersection parameter
    /// falls outside `[0, 1]`.
    pub fn intersect_segment(&self, start: &Point3, end: &Point3) -> (r: Option<
        (i128, i128, Point3),
    >)
        requires
            self.wf(),
            in_coord_range(*start),
            in_coord_range(*end),
        ensures
            r == self.spec_intersect(*start, *end),
    {
        let sa = self.signed_distance(start);
        let sb = self.signed_distance(end);
        proof {
            lemma_sdist_coord_bound(*self, *start);
            lemma_sdist_coord_bound(*self, *end);
        }
        let denom = sb - sa;
        if denom == 0 {
            return None;
        }
        let (num, den) = if denom > 0 {
            (-sa, denom)
        } else {
            (sa, -denom)
        };
        if num < 0 || num > den {
            return None;
        }
        let p = interpolate(start, end, num, den);
        Some((num, den, p))
    }

    /// The exact result of [`Plane3D::intersect_segment`].
    pub open spec fn spec_intersect(self, a: Point3, b: Point3) -> Option<(i128, i128, Point3)> {
        let sa = self.spec_signed_distance(a);
        let sb = self.spec_signed_distance(b);
        let denom = sb - sa;
        if denom == 0 {
            None
        } else {
            let num = if denom > 0 {
                -sa
            } else {
                sa
            };
            let den = if denom > 0 {
                denom
            } else {
                -denom
            };
            if 0 <= num <= den {
                Some((num as i128, den as i128, spec_interpolate(a, b, num, den)))
            } else {
                None
            }
        }
    }
}

/// The grid point at parameter `num / den` along the segment from `a` to
/// `b`, each coordinate truncated toward `a`.
pub open spec fn spec_interpolate(a: Point3, b: Point3, num: int, den: int) -> Point3 {
    Point3 {
        x: (a.x + div_trunc(num * (b.x - a.x), den)) as i64,
        y: (a.y + div_trunc(num * (b.y - a.y), den)) as i64,
        z: (a.z + div_trunc(num * (b.z - a.z), den)) as i64,
    }
}

/// Components of the right-hand-rule normal of the triangle `a`, `b`, `c`.
pub open spec fn tri_nx(a: Point3, b: Point3, c: Point3) -> int {
    (b.y - a.y) * (c.z - a.z) - (b.z - a.z) * (c.y - a.y)
}

pub open spec fn tri_ny(a: Point3, b: Point3, c: Point3) -> int {
    (b.z - a.z) * (c.x - a.x) - (b.x - a.x) * (c.z - a.z)
}

pub open spec fn tri_nz(a: Point3, b: Point3, c: Point3) -> int {
    (b.x - a.x) * (c.y - a.y) - (b.y - a.y) * (c.x - a.x)
}

/// Three points are collinear exactly when their cross product vanishes.
pub open spec fn spec_collinear(a: Point3, b: Point3, c: Point3) -> bool {
    tri_nx(a, b, c) == 0 && tri_ny(a, b, c) == 0 && tri_nz(a, b, c) == 0
}

/// The 1-norm of any vector is nonnegative.
pub proof fn lemma_norm1_nonnegative(v: Vector3)
    ensures
        norm1(v) >= 0,
{
}

/// The 1-norm of a nonzero vector is at least one.
pub proof fn lemma_norm1_positive(v: Vector3)
    requires
        !is_zero_vector(v),
    ensures
        norm1(v) >= 1,
{
}

/// The dot product of an in-range normal with any point fits comfortably
/// within `i128`, with room for the offset.
proof fn lemma_dot_vp_in_i128(n: Vector3, p: Point3)
    requires
        in_normal_range(n),
    ensures
        -(3 * ((NORMAL_LIMIT as int) * 0x8000_0000_0000_0000)) <= dot_vp(n, p) <= 3 * ((
        NORMAL_LIMIT as int) * 0x8000_0000_0000_0000),
{
    lemma_mul_bound(n.x as int, p.x as int, NORMAL_LIMIT as int, 0x8000_0000_0000_0000);
    lemma_mul_bound(n.y as int, p.y as int, NORMAL_LIMIT as int, 0x8000_0000_0000_0000);
    lemma_mul_bound(n.z as int, p.z as int, NORMAL_LIMIT as int, 0x8000_0000_0000_0000);
}

/// For an in-range point, the signed distance is bounded by twice the
/// offset limit.
proof fn lemma_sdist_coord_bound(pl: Plane3D, p: Point3)
    requires
        pl.wf(),
        in_coord_range(p),
    ensures
        -2 * OFFSET_LIMIT <= pl.spec_signed_distance(p) <= 2 * OFFSET_LIMIT,
{
    lemma_mul_bound(pl.normal.x as int, p.x as int, NORMAL_LIMIT as int, COORD_LIMIT as int);
    lemma_mul_bound(pl.normal.y as int, p.y as int, NORMAL_LIMIT as int, COORD_LIMIT as int);
    lemma_mul_bound(pl.normal.z as int, p.z as int, NORMAL_LIMIT as int, COORD_LIMIT as int);
}

/// The squared 2-norm is positive for a nonzero vector and dominates a
/// third of the squared 1-norm.
proof fn lemma_norm_sq_bounds(v: Vector3)
    requires
        in_normal_range(v),
        !is_zero_vector(v),
    ensures
        1 <= dot_vv(v, v),
        norm1(v) * norm1(v) <= 3 * dot_vv(v, v),
        dot_vv(v, v) <= 232113757366008801543585792,
{
    let x = v.x as int;
    let y = v.y as int;
    let z = v.z as int;
    assert(1 <= x * x + y * y + z * z && (iabs(x) + iabs(y) + iabs(z)) * (iabs(x) + iabs(y) + iabs(
        z,
    )) <= 3 * (x * x + y * y + z * z)) by (nonlinear_arith)
        requires
            !(x == 0 && y == 0 && z == 0),
    ;
    lemma_mul_bound(x, x, 0x800_0000_0000, 0x800_0000_0000);
    lemma_mul_bound(y, y, 0x800_0000_0000, 0x800_0000_0000);
    lemma_mul_bound(z, z, 0x800_0000_0000, 0x800_0000_0000);
}

/// Range facts for the projection computation: the products fit in `i128`
/// and the quotients are small.
proof fn lemma_project_term_bounds(pl: Plane3D, p: Point3)
    requires
        pl.wf(),
        in_coord_range(p),
        -norm1(pl.normal) * COORD_LIMIT <= pl.offset <= norm1(pl.normal) * COORD_LIMIT,
    ensures
        ({
            let s = pl.spec_signed_distance(p);
            let nn = dot_vv(pl.normal, pl.normal);
            let big = 1460333491462920270524202092593152int;
            &&& 1 <= nn <= 232113757366008801543585792
            &&& -big <= s * pl.normal.x <= big
            &&& -big <= s * pl.normal.y <= big
            &&& -big <= s * pl.normal.z <= big
            &&& -6 * COORD_LIMIT <= div_trunc(s * pl.normal.x, nn) <= 6 * COORD_LIMIT
            &&& -6 * COORD_LIMIT <= div_trunc(s * pl.normal.y, nn) <= 6 * COORD_LIMIT
            &&& -6 * COORD_LIMIT <= div_trunc(s * pl.normal.z, nn) <= 6 * COORD_LIMIT
        }),
{
    lemma_norm_sq_bounds(pl.normal);
    let s = pl.spec_signed_distance(p);
    let n1 = norm1(pl.normal);
    let nn = dot_vv(pl.normal, pl.normal);
    let c = COORD_LIMIT as int;
    lemma_mul_bound(pl.normal.x as int, p.x as int, iabs(pl.normal.x as int), c);
    lemma_mul_bound(pl.normal.y as int, p.y as int, iabs(pl.normal.y as int), c);
    lemma_mul_bound(pl.normal.z as int, p.z as int, iabs(pl.normal.z as int), c);
    assert(iabs(dot_vp(pl.normal, p)) <= n1 * c);
    assert(iabs(s) <= 2 * (n1 * c));
    lemma_mul_bound(s, pl.normal.x as int, 2 * (n1 * c), n1);
    lemma_mul_bound(s, pl.normal.y as int, 2 * (n1 * c), n1);
    lemma_mul_bound(s, pl.normal.z as int, 2 * (n1 * c), n1);
    assert((2 * (n1 * c)) * n1 <= nn * (6 * c)) by (nonlinear_arith)
        requires
            n1 * n1 <= 3 * nn,
            n1 >= 0,
            c >= 0,
    ;
    let k = 232113757366008801543585792int;
    assert(nn * (6 * c) <= k * (6 * c)) by (nonlinear_arith)
        requires
            nn <= k,
            c >= 0,
    ;
    assert(c == 0x10_0000);
    lemma_div_trunc_bounded(s * pl.normal.x, nn, 6 * c);
    lemma_div_trunc_bounded(s * pl.normal.y, nn, 6 * c);
    lemma_div_trunc_bounded(s * pl.normal.z, nn, 6 * c);
}

/// Evaluates the interpolation formula of [`spec_interpolate`] on machine
/// integers.
fn interpolate(a: &Point3, b: &Point3, num: i128, den: i128) -> (r: Point3)
    requires
        in_coord_range(*a),
        in_coord_range(*b),
        0 < den <= 4 * OFFSET_LIMIT,
        0 <= num <= den,
    ensures
        r == spec_interpolate(*a, *b, num as int, den as int),
        in_coord_range(r),
{
    let rx = interpolate_coord(a.x, b.x, num, den);
    let ry = interpolate_coord(a.y, b.y, num, den);
    let rz = interpolate_coord(a.z, b.z, num, den);
    Point3 { x: rx, y: ry, z: rz }
}

/// One coordinate of the interpolation: `av + trunc(num * (bv - av) / den)`,
/// which always lands between `av` and `bv`.
fn interpolate_coord(av: i64, bv: i64, num: i128, den: i128) -> (r: i64)
    requires
        -COORD_LIMIT <= av <= COORD_LIMIT,
        -COORD_LIMIT <= bv <= COORD_LIMIT,
        0 < den <= 4 * OFFSET_LIMIT,
        0 <= num <= den,
    ensures
        r == av + div_trunc(num * (bv - av), den as int),
        av <= bv ==> av <= r <= bv,
        bv <= av ==> bv <= r <= av,
{
    let d = (bv as i128) - (av as i128);
    proof {
        lemma_mul_bound(num as int, d as int, 4 * (OFFSET_LIMIT as int), 2 * (COORD_LIMIT as int));
        let ad = iabs(d as int);
        assert(-(den * ad) <= num * d <= den * ad) by (nonlinear_arith)
            requires
                0 <= num <= den,
                ad == iabs(d as int),
        ;
        lemma_div_trunc_bounded(num as int * d as int, den as int, ad);
        lemma_div_trunc_close(num as int * d as int, den as int);
        if d >= 0 {
            lemma_mul_nonnegative(num as int, d as int);
        } else {
            assert(num * d <= 0) by (nonlinear_arith)
                requires
                    num >= 0,
                    d <= 0,
            ;
        }
    }
    let q = crate::geom::div_trunc_i128(num * d, den);
    (av as i128 + q) as i64
}

/// A computed segment crossing lies on the plane, at every tolerance of at
/// least one grid unit: the rounding of each coordinate is below one grid
/// unit, so the signed distance of the rounded point stays below the
/// normal's 1-norm.
pub proof fn lemma_cut_point_on_plane(pl: Plane3D, a: Point3, b: Point3, eps: int)
    requires
        pl.wf(),
        in_coord_range(a),
        in_coord_range(b),
        1 <= eps,
        pl.spec_signed_distance(a) > pl.spec_threshold(eps),
        pl.spec_signed_distance(b) < -pl.spec_threshold(eps),
    ensures
        in_coord_range(pl.spec_cut_point(a, b)),
        ({
            let q = pl.spec_cut_point(a, b);
            &&& -norm1(pl.normal) < pl.spec_signed_distance(q) < norm1(pl.normal)
            &&& forall|e2: int| 1 <= e2 ==> pl.spec_side(q, e2) == PlaneSide::OnPlane
        }),
{
    let n = pl.normal;
    let n1 = norm1(n);
    let da = pl.spec_signed_distance(a);
    let db = pl.spec_signed_distance(b);
    let w = da - db;
    lemma_norm1_positive(n);
    lemma_mul_nonnegative(eps, n1);
    assert(eps * n1 >= 1 * n1) by (nonlinear_arith)
        requires
            eps >= 1,
            n1 >= 0,
    ;
    assert(da >= 1 && db <= -1 && w >= 2);
    let dx = b.x - a.x;
    let dy = b.y - a.y;
    let dz = b.z - a.z;
    let tx = div_trunc(da * dx, w);
    let ty = div_trunc(da * dy, w);
    let tz = div_trunc(da * dz, w);
    // Each offset is bounded by the corresponding coordinate difference and
    // has its sign, so the rounded point stays inside the segment's
    // bounding box.
    assert(-(w * iabs(dx)) <= da * dx <= w * iabs(dx) && -(w * iabs(dy)) <= da * dy <= w * iabs(dy)
        && -(w * iabs(dz)) <= da * dz <= w * iabs(dz) && (dx >= 0 ==> da * dx >= 0) && (dx <= 0
        ==> da * dx <= 0) && (dy >= 0 ==> da * dy >= 0) && (dy <= 0 ==> da * dy <= 0) && (dz >= 0
        ==> da * dz >= 0) && (dz <= 0 ==> da * dz <= 0)) by (nonlinear_arith)
        requires
            0 < da < w,
    ;
    lemma_div_trunc_bounded(da * dx, w, iabs(dx));
    lemma_div_trunc_bounded(da * dy, w, iabs(dy));
    lemma_div_trunc_bounded(da * dz, w, iabs(dz));
    lemma_div_trunc_close(da * dx, w);
    lemma_div_trunc_close(da * dy, w);
    lemma_div_trunc_close(da * dz, w);
    assert(a.x <= b.x ==> a.x <= a.x + tx <= b.x);
    assert(b.x <= a.x ==> b.x <= a.x + tx <= a.x);
    assert(a.y <= b.y ==> a.y <= a.y + ty <= b.y);
    assert(b.y <= a.y ==> b.y <= a.y + ty <= a.y);
    assert(a.z <= b.z ==> a.z <= a.z + tz <= b.z);
    assert(b.z <= a.z ==> b.z <= a.z + tz <= a.z);
    let q = pl.spec_cut_point(a, b);
    assert(q.x == a.x + tx && q.y == a.y + ty && q.z == a.z + tz);
    assert(in_coord_range(q));
    // Multiplying the signed distance of the rounded point by the (positive)
    // denominator turns it into the sum of the three per-coordinate rounding
    // errors, each below the denominator.
    let ex = w * tx - da * dx;
    let ey = w * ty - da * dy;
    let ez = w * tz - da * dz;
    assert(-(w - 1) <= ex <= w - 1 && -(w - 1) <= ey <= w - 1 && -(w - 1) <= ez <= w - 1);
    let sq = pl.spec_signed_distance(q);
    assert(sq == da + (n.x * tx + n.y * ty + n.z * tz)) by (nonlinear_arith)
        requires
            sq == n.x * (a.x + tx) + n.y * (a.y + ty) + n.z * (a.z + tz) - pl.offset,
            da == n.x * a.x + n.y * a.y + n.z * a.z - pl.offset,
    ;
    let nd = n.x * dx + n.y * dy + n.z * dz;
    assert(nd == db - da) by (nonlinear_arith)
        requires
            nd == n.x * (b.x - a.x) + n.y * (b.y - a.y) + n.z * (b.z - a.z),
            da == n.x * a.x + n.y * a.y + n.z * a.z - pl.offset,
            db == n.x * b.x + n.y * b.y + n.z * b.z - pl.offset,
    ;
    assert(w * (n.x * tx) == n.x * (da * dx) + n.x * ex) by (nonlinear_arith)
        requires
            ex == w * tx - da * dx,
    ;
    assert(w * (n.y * ty) == n.y * (da * dy) + n.y * ey) by (nonlinear_arith)
        requires
            ey == w * ty - da * dy,
    ;
    assert(w * (n.z * tz) == n.z * (da * dz) + n.z * ez) by (nonlinear_arith)
        requires
            ez == w * tz - da * dz,
    ;
    assert(n.x * (da * dx) == da * (n.x * dx)) by (nonlinear_arith);
    assert(n.y * (da * dy) == da * (n.y * dy)) by (nonlinear_arith);
    assert(n.z * (da * dz) == da * (n.z * dz)) by (nonlinear_arith);
    assert(da * (n.x * dx) + da * (n.y * dy) + da * (n.z * dz) == da * (n.x * dx + n.y * dy + n.z
        * dz)) by (nonlinear_arith);
    assert(n.x * (da * dx) + n.y * (da * dy) + n.z * (da * dz) == da * nd);
    assert(w * sq == w * da + (w * (n.x * tx) + w * (n.y * ty) + w * (n.z * tz)))
        by (nonlinear_arith)
        requires
            sq == da + (n.x * tx + n.y * ty + n.z * tz),
    ;
    assert(w * da + da * nd == 0) by (nonlinear_arith)
        requires
            nd == db - da,
            w == da - db,
    ;
    assert(w * sq == n.x * ex + n.y * ey + n.z * ez);
    lemma_mul_bound(n.x as int, ex, iabs(n.x as int), w - 1);
    lemma_mul_bound(n.y as int, ey, iabs(n.y as int), w - 1);
    lemma_mul_bound(n.z as int, ez, iabs(n.z as int), w - 1);
    assert(-(n1 * (w - 1)) <= w * sq <= n1 * (w - 1)) by (nonlinear_arith)
        requires
            n1 == iabs(n.x as int) + iabs(n.y as int) + iabs(n.z as int),
            w * sq == n.x * ex + n.y * ey + n.z * ez,
            -(iabs(n.x as int) * (w - 1)) <= n.x * ex <= iabs(n.x as int) * (w - 1),
            -(iabs(n.y as int) * (w - 1)) <= n.y * ey <= iabs(n.y as int) * (w - 1),
            -(iabs(n.z as int) * (w - 1)) <= n.z * ez <= iabs(n.z as int) * (w - 1),
    ;
    assert(-n1 < sq < n1) by (nonlinear_arith)
        requires
            -(n1 * (w - 1)) <= w * sq <= n1 * (w - 1),
            w >= 2,
            n1 >= 1,
    ;
    assert forall|e2: int| 1 <= e2 implies pl.spec_side(q, e2) == PlaneSide::OnPlane by {
        assert(e2 * n1 >= 1 * n1) by (nonlinear_arith)
            requires
                e2 >= 1,
                n1 >= 0,
        ;
    }
}

} // verus!
