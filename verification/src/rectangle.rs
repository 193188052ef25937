//! Rectangles (quads) given by a corner and two edge vectors.

use crate::cuttable::Cuttable;
use crate::geom::{
    cross, cross_x, cross_y, cross_z, div_trunc, dot_vv, in_coord_range, Point3, Vector3,
    COORD_LIMIT,
};
use crate::plane::{Classification, Plane3D, PLANE_EPSILON};
use crate::polygon::{spec_classify, Polygon};
use vstd::prelude::*;

verus! {

/// Classification of a rectangle relative to a plane.
#[derive(Debug, Clone, Copy, PartialEq, Eq, Structural)]
pub enum RectangleClassification {
    /// All vertices are in front of the plane.
    Front,
    /// All vertices are behind the plane.
    Back,
    /// All vertices are on the plane (the rectangle is coplanar).
    Coplanar,
    /// Vertices lie on both sides (the rectangle spans the plane).
    Spanning,
}

/// The aggregate shape classification, renamed for rectangles.
pub open spec fn to_rect_classification(c: Classification) -> RectangleClassification {
    match c {
        Classification::Front => RectangleClassification::Front,
        Classification::Back => RectangleClassification::Back,
        Classification::Coplanar => RectangleClassification::Coplanar,
        Classification::Spanning => RectangleClassification::Spanning,
    }
}

/// A rectangle (quad) in 3D space, defined by a corner and two edge
/// vectors.  The four vertices are `origin`, `origin + u`,
/// `origin + u + v`, and `origin + v`, in counter-clockwise winding.
#[derive(Debug, Clone, Copy, PartialEq, Eq, Structural)]
pub struct Rectangle {
    pub origin: Point3,
    pub u: Vector3,
    pub v: Vector3,
}

impl Rectangle {
    /// All four corners lie on the supported coordinate grid.
    pub open spec fn wf(self) -> bool {
        &&& in_coord_range(self.origin)
        &&& -COORD_LIMIT <= self.origin.x + self.u.x <= COORD_LIMIT
        &&& -COORD_LIMIT <= self.origin.y + self.u.y <= COORD_LIMIT
        &&& -COORD_LIMIT <= self.origin.z + self.u.z <= COORD_LIMIT
        &&& -COORD_LIMIT <= self.origin.x + self.u.x + self.v.x <= COORD_LIMIT
        &&& -COORD_LIMIT <= self.origin.y + self.u.y + self.v.y <= COORD_LIMIT
        &&& -COORD_LIMIT <= self.origin.z + self.u.z + self.v.z <= COORD_LIMIT
        &&& -COORD_LIMIT <= self.origin.x + self.v.x <= COORD_LIMIT
        &&& -COORD_LIMIT <= self.origin.y + self.v.y <= COORD_LIMIT
        &&& -COORD_LIMIT <= self.origin.z + self.v.z <= COORD_LIMIT
    }

    /// The four corner points, in winding order.
    pub open spec fn spec_vertices(self) -> Seq<Point3> {
        let o = self.origin;
        seq![
            o,
            Point3 { x: (o.x + self.u.x) as i64, y: (o.y + self.u.y) as i64, z: (o.z + self.u.z) as i64 },
            Point3 {
                x: (o.x + self.u.x + self.v.x) as i64,
                y: (o.y + self.u.y + self.v.y) as i64,
                z: (o.z + self.u.z + self.v.z) as i64,
            },
            Point3 { x: (o.x + self.v.x) as i64, y: (o.y + self.v.y) as i64, z: (o.z + self.v.z) as i64 },
        ]
    }

    /// Creates a new rectangle from an origin corner and two edge vectors.
    pub fn new(origin: Point3, u: Vector3, v: Vector3) -> (r: Rectangle)
        requires
            (Rectangle { origin, u, v }).wf(),
        ensures
            r == (Rectangle { origin, u, v }),
            r.wf(),
    {
        Rectangle { origin, u, v }
    }

    /// Creates a rectangle from four corner points wound `a`, `b`, `c`,
    /// `d`; the points are expected to form a planar parallelogram, so only
    /// `a`, `b` and `d` determine it (`u = b - a`, `v = d - a`).
    pub fn from_corners(a: Point3, b: Point3, c: Point3, d: Point3) -> (r: Rectangle)
        requires
            in_coord_range(a),
            in_coord_range(b),
            in_coord_range(d),
            -COORD_LIMIT <= b.x + d.x - a.x <= COORD_LIMIT,
            -COORD_LIMIT <= b.y + d.y - a.y <= COORD_LIMIT,
            -COORD_LIMIT <= b.z + d.z - a.z <= COORD_LIMIT,
        ensures
            r.origin == a,
            r.u == (Vector3 { x: (b.x - a.x) as i64, y: (b.y - a.y) as i64, z: (b.z - a.z) as i64 }),
            r.v == (Vector3 { x: (d.x - a.x) as i64, y: (d.y - a.y) as i64, z: (d.z - a.z) as i64 }),
            r.wf(),
    {
        let _ = c;
        let u = b.sub(&a);
        let v = d.sub(&a);
        Rectangle { origin: a, u, v }
    }

    /// Returns the origin corner of the rectangle.
    pub fn origin(&self) -> (r: Point3)
        ensures
            r == self.origin,
    {
        self.origin
    }

    /// Returns the first edge vector.
    pub fn u(&self) -> (r: Vector3)
        ensures
            r == self.u,
    {
        self.u
    }

    /// Returns the second edge vector.
    pub fn v(&self) -> (r: Vector3)
        ensures
            r == self.v,
    {
        self.v
    }

    /// Returns the four vertices of the rectangle, in winding order.
    pub fn vertices(&self) -> (r: [Point3; 4])
        requires
            self.wf(),
        ensures
            r@ == self.spec_vertices(),
    {
        let o = self.origin;
        let p1 = Point3 { x: o.x + self.u.x, y: o.y + self.u.y, z: o.z + self.u.z };
        let p2 = Point3 { x: p1.x + self.v.x, y: p1.y + self.v.y, z: p1.z + self.v.z };
        let p3 = Point3 { x: o.x + self.v.x, y: o.y + self.v.y, z: o.z + self.v.z };
        let r = [o, p1, p2, p3];
        proof {
            assert(r@ =~= self.spec_vertices());
        }
        r
    }

    /// Computes the (unnormalized) normal vector of the rectangle:
    /// `u x v`, following the right-hand rule.
    pub fn normal(&self) -> (r: Vector3)
        requires
            self.wf(),
        ensures
            r.x == cross_x(self.u, self.v),
            r.y == cross_y(self.u, self.v),
            r.z == cross_z(self.u, self.v),
            crate::geom::in_normal_range(r),
    {
        cross(&self.u, &self.v)
    }

    /// Whether the rectangle is degenerate: its edge vectors are parallel,
    /// so it has no usable plane.
    pub fn degenerate(&self) -> (r: bool)
        requires
            self.wf(),
        ensures
            r == (cross_x(self.u, self.v) == 0 && cross_y(self.u, self.v) == 0 && cross_z(
                self.u,
                self.v,
            ) == 0),
    {
        let n = self.normal();
        n.x == 0 && n.y == 0 && n.z == 0
    }

    /// Returns the plane this rectangle lies on.
    pub fn plane(&self) -> (r: Plane3D)
        requires
            self.wf(),
            !(cross_x(self.u, self.v) == 0 && cross_y(self.u, self.v) == 0 && cross_z(
                self.u,
                self.v,
            ) == 0),
        ensures
            r.normal.x == cross_x(self.u, self.v),
            r.normal.y == cross_y(self.u, self.v),
            r.normal.z == cross_z(self.u, self.v),
            r.offset == crate::geom::dot_vp(r.normal, self.origin),
            r.wf(),
    {
        let n = self.normal();
        Plane3D::from_point_and_normal(&self.origin, &n)
    }

    /// Computes the centroid of the rectangle: the corner plus half the
    /// diagonal, each coordinate rounded toward zero.
    pub fn centroid(&self) -> (r: Point3)
        requires
            self.wf(),
        ensures
            r.x == self.origin.x + div_trunc(self.u.x + self.v.x, 2),
            r.y == self.origin.y + div_trunc(self.u.y + self.v.y, 2),
            r.z == self.origin.z + div_trunc(self.u.z + self.v.z, 2),
    {
        proof {
            lemma_rect_half_diagonal(*self);
        }
        let cx = crate::geom::div_trunc_i128(self.u.x as i128 + self.v.x as i128, 2);
        let cy = crate::geom::div_trunc_i128(self.u.y as i128 + self.v.y as i128, 2);
        let cz = crate::geom::div_trunc_i128(self.u.z as i128 + self.v.z as i128, 2);
        Point3 {
            x: self.origin.x + (cx as i64),
            y: self.origin.y + (cy as i64),
            z: self.origin.z + (cz as i64),
        }
    }

    /// Computes the squared area of the rectangle: the squared length of
    /// `u x v`.  (The area itself is generally irrational; its square is
    /// exact.)
    pub fn area_squared(&self) -> (r: i128)
        requires
            self.wf(),
        ensures
            ({
                let n = Vector3 {
                    x: cross_x(self.u, self.v) as i64,
                    y: cross_y(self.u, self.v) as i64,
                    z: cross_z(self.u, self.v) as i64,
                };
                r == dot_vv(n, n)
            }),
    {
        let n = self.normal();
        crate::geom::dot_vector(&n, &n)
    }

    /// Converts the rectangle to a polygon with the same four vertices.
    pub fn to_polygon(&self) -> (r: Polygon)
        requires
            self.wf(),
        ensures
            r@ == self.spec_vertices(),
            r.wf(),
    {
        let vs4 = self.vertices();
        let mut vs: Vec<Point3> = Vec::new();
        vs.push(vs4[0]);
        vs.push(vs4[1]);
        vs.push(vs4[2]);
        vs.push(vs4[3]);
        proof {
            assert(vs@ =~= self.spec_vertices());
        }
        Polygon::new(vs)
    }

    /// Classifies this rectangle relative to a plane, by aggregating the
    /// per-vertex classification at the default tolerance.
    pub fn classify(&self, plane: &Plane3D) -> (r: RectangleClassification)
        requires
            self.wf(),
            plane.wf(),
        ensures
            r == to_rect_classification(
                spec_classify(self.spec_vertices(), *plane, PLANE_EPSILON as int),
            ),
    {
        let p = self.to_polygon();
        match p.classify(plane) {
            Classification::Front => RectangleClassification::Front,
            Classification::Back => RectangleClassification::Back,
            Classification::Coplanar => RectangleClassification::Coplanar,
            Classification::Spanning => RectangleClassification::Spanning,
        }
    }
}

/// Half the diagonal of a well-formed rectangle stays on the grid.
proof fn lemma_rect_half_diagonal(r: Rectangle)
    requires
        r.wf(),
    ensures
        -2 * COORD_LIMIT <= r.u.x + r.v.x <= 2 * COORD_LIMIT,
        -2 * COORD_LIMIT <= r.u.y + r.v.y <= 2 * COORD_LIMIT,
        -2 * COORD_LIMIT <= r.u.z + r.v.z <= 2 * COORD_LIMIT,
        -COORD_LIMIT <= r.origin.x + div_trunc(r.u.x + r.v.x, 2) <= COORD_LIMIT,
        -COORD_LIMIT <= r.origin.y + div_trunc(r.u.y + r.v.y, 2) <= COORD_LIMIT,
        -COORD_LIMIT <= r.origin.z + div_trunc(r.u.z + r.v.z, 2) <= COORD_LIMIT,
{
    lemma_centroid_coord(r.origin.x as int, (r.u.x + r.v.x) as int);
    lemma_centroid_coord(r.origin.y as int, (r.u.y + r.v.y) as int);
    lemma_centroid_coord(r.origin.z as int, (r.u.z + r.v.z) as int);
}

/// Rounding half a diagonal toward zero keeps the centroid coordinate
/// between the corner and the opposite corner.
proof fn lemma_centroid_coord(o: int, d: int)
    requires
        -COORD_LIMIT <= o <= COORD_LIMIT,
        -COORD_LIMIT <= o + d <= COORD_LIMIT,
    ensures
        -COORD_LIMIT <= o + div_trunc(d, 2) <= COORD_LIMIT,
{
    crate::geom::lemma_div_trunc_close(d, 2);
    crate::geom::lemma_div_trunc_bounded(d, 2, COORD_LIMIT as int);
    let q = div_trunc(d, 2);
    if d >= 0 {
        assert(2 * q <= d && q >= 0);
        assert(q <= d);
    } else {
        assert(d <= 2 * q && q <= 0);
        assert(d <= q);
    }
}

impl Cuttable for Rectangle {
    open spec fn cut_view(&self) -> Seq<Point3> {
        self.spec_vertices()
    }

    open spec fn cut_ready(&self) -> bool {
        self.wf()
    }

    fn cut(&self, plane: &Plane3D) -> (r: (Option<Polygon>, Option<Polygon>)) {
        let p = self.to_polygon();
        p.cut(plane)
    }
}

} // verus!
