//! Triangles: the minimal convex shape.

use crate::cuttable::Cuttable;
use crate::geom::{cross, div_trunc, in_coord_range, Point3, Vector3};
use crate::plane::{spec_collinear, tri_nx, tri_ny, tri_nz, Classification, Plane3D, PLANE_EPSILON};
use crate::polygon::{spec_classify, Polygon};
use vstd::prelude::*;

verus! {

/// A triangle in 3D space, defined by three vertices.  The winding order
/// determines the normal direction via the right-hand rule:
/// `(b - a) x (c - a)`.
#[derive(Debug, Clone, Copy)]
pub struct Triangle {
    pub vertices: [Point3; 3],
}

impl Triangle {
    /// A triangle on the supported coordinate grid.
    pub open spec fn wf(self) -> bool {
        &&& in_coord_range(self.vertices@[0])
        &&& in_coord_range(self.vertices@[1])
        &&& in_coord_range(self.vertices@[2])
    }

    /// Creates a new triangle from three points.
    pub fn new(a: Point3, b: Point3, c: Point3) -> (r: Triangle)
        requires
            in_coord_range(a),
            in_coord_range(b),
            in_coord_range(c),
        ensures
            r.vertices@ == seq![a, b, c],
            r.wf(),
    {
        let r = Triangle { vertices: [a, b, c] };
        proof {
            assert(r.vertices@ =~= seq![a, b, c]);
        }
        r
    }

    /// Returns the three vertices of the triangle.
    pub fn vertices(&self) -> (r: &[Point3; 3])
        ensures
            r@ == self.vertices@,
    {
        &self.vertices
    }

    /// Computes the (unnormalized) normal vector of the triangle, following
    /// the right-hand rule.
    pub fn normal(&self) -> (r: Vector3)
        requires
            self.wf(),
        ensures
            r.x == tri_nx(self.vertices@[0], self.vertices@[1], self.vertices@[2]),
            r.y == tri_ny(self.vertices@[0], self.vertices@[1], self.vertices@[2]),
            r.z == tri_nz(self.vertices@[0], self.vertices@[1], self.vertices@[2]),
            crate::geom::in_normal_range(r),
    {
        let ab = self.vertices[1].sub(&self.vertices[0]);
        let ac = self.vertices[2].sub(&self.vertices[0]);
        cross(&ab, &ac)
    }

    /// Whether the triangle is degenerate: its vertices are collinear, so
    /// it has no usable plane.
    pub fn degenerate(&self) -> (r: bool)
        requires
            self.wf(),
        ensures
            r == spec_collinear(self.vertices@[0], self.vertices@[1], self.vertices@[2]),
    {
        let n = self.normal();
        n.x == 0 && n.y == 0 && n.z == 0
    }

    /// Returns the plane this triangle lies on.
    pub fn plane(&self) -> (r: Plane3D)
        requires
            self.wf(),
            !spec_collinear(self.vertices@[0], self.vertices@[1], self.vertices@[2]),
        ensures
            r.normal.x == tri_nx(self.vertices@[0], self.vertices@[1], self.vertices@[2]),
            r.normal.y == tri_ny(self.vertices@[0], self.vertices@[1], self.vertices@[2]),
            r.normal.z == tri_nz(self.vertices@[0], self.vertices@[1], self.vertices@[2]),
            r.offset == crate::geom::dot_vp(r.normal, self.vertices@[0]),
            r.wf(),
    {
        Plane3D::from_three_points(&self.vertices[0], &self.vertices[1], &self.vertices[2])
    }

    /// Computes the centroid of the triangle: the mean of its vertices,
    /// each coordinate rounded toward zero.
    pub fn centroid(&self) -> (r: Point3)
        requires
            self.wf(),
        ensures
            r.x == div_trunc(
                self.vertices@[0].x + self.vertices@[1].x + self.vertices@[2].x,
                3,
            ),
            r.y == div_trunc(
                self.vertices@[0].y + self.vertices@[1].y + self.vertices@[2].y,
                3,
            ),
            r.z == div_trunc(
                self.vertices@[0].z + self.vertices@[1].z + self.vertices@[2].z,
                3,
            ),
            in_coord_range(r),
    {
        let a = self.vertices[0];
        let b = self.vertices[1];
        let c = self.vertices[2];
        proof {
            crate::geom::lemma_div_trunc_bounded(
                a.x + b.x + c.x,
                3,
                crate::geom::COORD_LIMIT as int,
            );
            crate::geom::lemma_div_trunc_bounded(
                a.y + b.y + c.y,
                3,
                crate::geom::COORD_LIMIT as int,
            );
            crate::geom::lemma_div_trunc_bounded(
                a.z + b.z + c.z,
                3,
                crate::geom::COORD_LIMIT as int,
            );
        }
        let cx = crate::geom::div_trunc_i128(a.x as i128 + b.x as i128 + c.x as i128, 3);
        let cy = crate::geom::div_trunc_i128(a.y as i128 + b.y as i128 + c.y as i128, 3);
        let cz = crate::geom::div_trunc_i128(a.z as i128 + b.z as i128 + c.z as i128, 3);
        Point3 { x: cx as i64, y: cy as i64, z: cz as i64 }
    }

    /// Converts the triangle to a polygon with the same vertices.
    pub fn to_polygon(&self) -> (r: Polygon)
        requires
            self.wf(),
        ensures
            r@ == self.vertices@,
            r.wf(),
    {
        let mut vs: Vec<Point3> = Vec::new();
        vs.push(self.vertices[0]);
        vs.push(self.vertices[1]);
        vs.push(self.vertices[2]);
        proof {
            assert(vs@ =~= self.vertices@);
        }
        Polygon::new(vs)
    }

    /// Classifies this triangle relative to a plane, by aggregating the
    /// per-vertex classification at the default tolerance.
    pub fn classify(&self, plane: &Plane3D) -> (r: Classification)
        requires
            self.wf(),
            plane.wf(),
        ensures
            r == spec_classify(self.vertices@, *plane, PLANE_EPSILON as int),
    {
        let p = self.to_polygon();
        p.classify(plane)
    }
}

impl Cuttable for Triangle {
    open spec fn cut_view(&self) -> Seq<Point3> {
        self.vertices@
    }

    open spec fn cut_ready(&self) -> bool {
        self.wf()
    }

    fn cut(&self, plane: &Plane3D) -> (r: (Option<Polygon>, Option<Polygon>)) {
        let p = self.to_polygon();
        p.cut(plane)
    }
}

} // verus!
