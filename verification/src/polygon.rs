//! Convex polygons given by an ordered vertex list.

use crate::geom::{
    cross, div_trunc, dot_vp, in_coord_range, lemma_div_trunc_bounded, Point3, Vector3,
    COORD_LIMIT,
};
use crate::plane::{
    spec_collinear, tri_nx, tri_ny, tri_nz, Classification, Plane3D, PlaneSide, PLANE_EPSILON,
};
use vstd::prelude::*;

verus! {

/// A convex polygon in 3D space, defined by an ordered list of vertices.
///
/// Vertices should be coplanar and wound counter-clockwise when viewed from
/// the front (the direction the derived normal points).
#[derive(Debug)]
pub struct Polygon {
    pub vertices: Vec<Point3>,
}

impl View for Polygon {
    type V = Seq<Point3>;

    open spec fn view(&self) -> Seq<Point3> {
        self.vertices@
    }
}

/// Every point of the sequence lies on the supported coordinate grid.
pub open spec fn all_in_coord_range(vs: Seq<Point3>) -> bool {
    forall|i: int| 0 <= i < vs.len() ==> in_coord_range(#[trigger] vs[i])
}

/// The vertex sequences of a sequence of polygons.
pub open spec fn polys_view(ps: Seq<Polygon>) -> Seq<Seq<Point3>> {
    ps.map_values(|p: Polygon| p@)
}

/// Every polygon of the sequence is well-formed.
pub open spec fn all_wf(ps: Seq<Polygon>) -> bool {
    forall|i: int| 0 <= i < ps.len() ==> (#[trigger] ps[i]).wf()
}

/// Appending a polygon appends its vertex sequence to the view.
pub proof fn lemma_polys_view_push(s: Seq<Polygon>, p: Polygon)
    ensures
        polys_view(s.push(p)) == polys_view(s).push(p@),
{
    assert forall|k: int| 0 <= k < s.len() + 1 implies polys_view(s.push(p))[k] == polys_view(
        s,
    ).push(p@)[k] by {
        if k < s.len() {
            assert(s.push(p)[k] == s[k]);
        } else {
            assert(s.push(p)[k] == p);
        }
    }
    assert(polys_view(s.push(p)) =~= polys_view(s).push(p@));
}

/// Concatenation commutes with taking views.
pub proof fn lemma_polys_view_concat(a: Seq<Polygon>, b: Seq<Polygon>)
    ensures
        polys_view(a + b) == polys_view(a) + polys_view(b),
{
    assert forall|k: int| 0 <= k < a.len() + b.len() implies polys_view(a + b)[k] == (polys_view(a)
        + polys_view(b))[k] by {
        if k < a.len() {
            assert((a + b)[k] == a[k]);
        } else {
            assert((a + b)[k] == b[k - a.len()]);
        }
    }
    assert(polys_view(a + b) =~= polys_view(a) + polys_view(b));
}

/// Removing a polygon by swapping in the last one acts the same way on the
/// views.
pub proof fn lemma_polys_view_swap_remove(s: Seq<Polygon>, i: int)
    requires
        0 <= i < s.len(),
    ensures
        polys_view(s.update(i, s.last()).drop_last()) == polys_view(s).update(
            i,
            polys_view(s).last(),
        ).drop_last(),
{
    let lhs = polys_view(s.update(i, s.last()).drop_last());
    let rhs = polys_view(s).update(i, polys_view(s).last()).drop_last();
    assert forall|k: int| 0 <= k < s.len() - 1 implies lhs[k] == rhs[k] by {
        if k == i {
            assert(s.update(i, s.last()).drop_last()[k] == s.last());
        } else {
            assert(s.update(i, s.last()).drop_last()[k] == s[k]);
        }
    }
    assert(lhs =~= rhs);
}

/// Extending a prefix by one element pushes that element's view.
pub proof fn lemma_polys_view_prefix(s: Seq<Polygon>, k: int)
    requires
        0 <= k < s.len(),
    ensures
        polys_view(s.subrange(0, k + 1)) == polys_view(s.subrange(0, k)).push(s[k]@),
{
    assert(s.subrange(0, k + 1) =~= s.subrange(0, k).push(s[k]));
    lemma_polys_view_push(s.subrange(0, k), s[k]);
}

/// Every vertex classifies `OnPlane`.
pub open spec fn all_on_plane(vs: Seq<Point3>, plane: Plane3D, eps: int) -> bool {
    forall|i: int| 0 <= i < vs.len() ==> plane.spec_side(#[trigger] vs[i], eps) == PlaneSide::OnPlane
}

/// No vertex classifies strictly `Back`.
pub open spec fn none_back(vs: Seq<Point3>, plane: Plane3D, eps: int) -> bool {
    forall|i: int| 0 <= i < vs.len() ==> plane.spec_side(#[trigger] vs[i], eps) != PlaneSide::Back
}

/// No vertex classifies strictly `Front`.
pub open spec fn none_front(vs: Seq<Point3>, plane: Plane3D, eps: int) -> bool {
    forall|i: int| 0 <= i < vs.len() ==> plane.spec_side(#[trigger] vs[i], eps) != PlaneSide::Front
}

/// Aggregate classification of a vertex list against a plane: `Coplanar`
/// when every vertex is on the plane, otherwise `Front` when no vertex is
/// strictly behind, then `Back` when no vertex is strictly in front, and
/// `Spanning` when both sides are occupied.  The order of the checks
/// matters: an all-on-plane list reports `Coplanar` even though it also has
/// no front and no back votes.
pub open spec fn spec_classify(vs: Seq<Point3>, plane: Plane3D, eps: int) -> Classification {
    if all_on_plane(vs, plane, eps) {
        Classification::Coplanar
    } else if none_back(vs, plane, eps) {
        Classification::Front
    } else if none_front(vs, plane, eps) {
        Classification::Back
    } else {
        Classification::Spanning
    }
}

/// The supporting plane derived from the first three points of a vertex
/// list: right-hand-rule normal, passing through the first point.
pub open spec fn spec_plane_of(vs: Seq<Point3>) -> Plane3D
    recommends
        vs.len() >= 3,
{
    let n = Vector3 {
        x: tri_nx(vs[0], vs[1], vs[2]) as i64,
        y: tri_ny(vs[0], vs[1], vs[2]) as i64,
        z: tri_nz(vs[0], vs[1], vs[2]) as i64,
    };
    Plane3D { normal: n, offset: dot_vp(n, vs[0]) as i128 }
}

/// Whether the first three points of a vertex list are collinear, in which
/// case no supporting plane can be derived.
pub open spec fn spec_degenerate(vs: Seq<Point3>) -> bool
    recommends
        vs.len() >= 3,
{
    spec_collinear(vs[0], vs[1], vs[2])
}

/// Sum of the x coordinates of a vertex list.
pub open spec fn sum_x(vs: Seq<Point3>) -> int
    decreases vs.len(),
{
    if vs.len() == 0 {
        0
    } else {
        sum_x(vs.drop_last()) + vs.last().x
    }
}

/// Sum of the y coordinates of a vertex list.
pub open spec fn sum_y(vs: Seq<Point3>) -> int
    decreases vs.len(),
{
    if vs.len() == 0 {
        0
    } else {
        sum_y(vs.drop_last()) + vs.last().y
    }
}

/// Sum of the z coordinates of a vertex list.
pub open spec fn sum_z(vs: Seq<Point3>) -> int
    decreases vs.len(),
{
    if vs.len() == 0 {
        0
    } else {
        sum_z(vs.drop_last()) + vs.last().z
    }
}

impl Polygon {
    /// A structurally valid polygon: at least three vertices, all on the
    /// supported coordinate grid.
    pub open spec fn wf(self) -> bool {
        &&& self@.len() >= 3
        &&& all_in_coord_range(self@)
    }

    /// Creates a new polygon from a list of vertices.  The vertices are
    /// expected to be coplanar; [`Polygon::are_coplanar`] checks that.
    pub fn new(vertices: Vec<Point3>) -> (r: Polygon)
        requires
            vertices@.len() >= 3,
            all_in_coord_range(vertices@),
        ensures
            r@ == vertices@,
            r.wf(),
    {
        Polygon { vertices }
    }

    /// Checks whether all vertices lie on one plane, within the default
    /// tolerance: every vertex after the third must classify on the plane
    /// derived from the first three.
    pub fn are_coplanar(vertices: &Vec<Point3>) -> (r: bool)
        requires
            all_in_coord_range(vertices@),
            vertices@.len() > 3 ==> !spec_degenerate(vertices@),
        ensures
            r == spec_coplanar(vertices@),
    {
        let n = vertices.len();
        if n <= 3 {
            return true;
        }
        let plane = Plane3D::from_three_points(&vertices[0], &vertices[1], &vertices[2]);
        proof {
            lemma_plane_of_wf(vertices@);
            assert(plane == spec_plane_of(vertices@));
        }
        let mut i: usize = 3;
        while i < n
            invariant
                3 <= i <= n,
                n == vertices@.len(),
                n > 3,
                plane == spec_plane_of(vertices@),
                plane.wf(),
                forall|j: int|
                    3 <= j < i ==> plane.spec_side(#[trigger] vertices@[j], PLANE_EPSILON as int)
                        == PlaneSide::OnPlane,
            decreases n - i,
        {
            if !matches!(plane.classify_point(&vertices[i]), PlaneSide::OnPlane) {
                return false;
            }
            i = i + 1;
        }
        true
    }

    /// Returns the vertices of the polygon.
    pub fn vertices(&self) -> (r: &Vec<Point3>)
        ensures
            r@ == self@,
    {
        &self.vertices
    }

    /// Returns the number of vertices.
    pub fn len(&self) -> (r: usize)
        ensures
            r == self@.len(),
    {
        self.vertices.len()
    }

    /// Returns true if the polygon has no vertices (never, for a
    /// well-formed polygon).
    pub fn is_empty(&self) -> (r: bool)
        ensures
            r == (self@.len() == 0),
    {
        self.vertices.is_empty()
    }

    /// Computes the (unnormalized) normal vector of the polygon: the cross
    /// product of the two edges leaving the first vertex, following the
    /// right-hand rule.
    pub fn normal(&self) -> (r: Vector3)
        requires
            self.wf(),
        ensures
            r.x == tri_nx(self@[0], self@[1], self@[2]),
            r.y == tri_ny(self@[0], self@[1], self@[2]),
            r.z == tri_nz(self@[0], self@[1], self@[2]),
            crate::geom::in_normal_range(r),
    {
        let ab = self.vertices[1].sub(&self.vertices[0]);
        let ac = self.vertices[2].sub(&self.vertices[0]);
        cross(&ab, &ac)
    }

    /// Whether the polygon's first three vertices are collinear, so that it
    /// has no usable supporting plane.
    pub fn degenerate(&self) -> (r: bool)
        requires
            self.wf(),
        ensures
            r == spec_degenerate(self@),
    {
        let n = self.normal();
        n.x == 0 && n.y == 0 && n.z == 0
    }

    /// Returns the supporting plane of the polygon, derived from its first
    /// three vertices.
    pub fn plane(&self) -> (r: Plane3D)
        requires
            self.wf(),
            !spec_degenerate(self@),
        ensures
            r == spec_plane_of(self@),
            r.wf(),
            r.spec_signed_distance(self@[0]) == 0,
    {
        let r = Plane3D::from_three_points(
            &self.vertices[0],
            &self.vertices[1],
            &self.vertices[2],
        );
        proof {
            lemma_plane_of_wf(self@);
        }
        r
    }

    /// Computes the centroid of the polygon: the arithmetic mean of its
    /// vertices, each coordinate rounded toward zero.
    pub fn centroid(&self) -> (r: Point3)
        requires
            self.wf(),
        ensures
            r.x == div_trunc(sum_x(self@), self@.len() as int),
            r.y == div_trunc(sum_y(self@), self@.len() as int),
            r.z == div_trunc(sum_z(self@), self@.len() as int),
            in_coord_range(r),
    {
        let n = self.vertices.len();
        let mut sx: i128 = 0;
        let mut sy: i128 = 0;
        let mut sz: i128 = 0;
        let mut i: usize = 0;
        while i < n
            invariant
                0 <= i <= n,
                n == self@.len(),
                all_in_coord_range(self@),
                sx == sum_x(self@.subrange(0, i as int)),
                sy == sum_y(self@.subrange(0, i as int)),
                sz == sum_z(self@.subrange(0, i as int)),
                -(i as int) * (COORD_LIMIT as int) <= sx <= (i as int) * (COORD_LIMIT as int),
                -(i as int) * (COORD_LIMIT as int) <= sy <= (i as int) * (COORD_LIMIT as int),
                -(i as int) * (COORD_LIMIT as int) <= sz <= (i as int) * (COORD_LIMIT as int),
            decreases n - i,
        {
            proof {
                assert(self@.subrange(0, i + 1 as int).drop_last() =~= self@.subrange(
                    0,
                    i as int,
                ));
                assert(in_coord_range(self@[i as int]));
            }
            let v = self.vertices[i];
            sx = sx + (v.x as i128);
            sy = sy + (v.y as i128);
            sz = sz + (v.z as i128);
            i = i + 1;
        }
        proof {
            assert(self@.subrange(0, n as int) =~= self@);
            lemma_div_trunc_bounded(sx as int, n as int, COORD_LIMIT as int);
            lemma_div_trunc_bounded(sy as int, n as int, COORD_LIMIT as int);
            lemma_div_trunc_bounded(sz as int, n as int, COORD_LIMIT as int);
        }
        let cx = crate::geom::div_trunc_i128(sx, n as i128);
        let cy = crate::geom::div_trunc_i128(sy, n as i128);
        let cz = crate::geom::div_trunc_i128(sz, n as i128);
        Point3 { x: cx as i64, y: cy as i64, z: cz as i64 }
    }

    /// Classifies this polygon relative to a plane, by aggregating the
    /// per-vertex classification at the default tolerance.
    pub fn classify(&self, plane: &Plane3D) -> (r: Classification)
        requires
            plane.wf(),
        ensures
            r == spec_classify(self@, *plane, PLANE_EPSILON as int),
    {
        classify_vertices(&self.vertices, plane)
    }
}

/// Aggregates per-vertex plane sides into a shape classification, at the
/// default tolerance.
pub(crate) fn classify_vertices(vertices: &Vec<Point3>, plane: &Plane3D) -> (r: Classification)
    requires
        plane.wf(),
    ensures
        r == spec_classify(vertices@, *plane, PLANE_EPSILON as int),
{
    let ghost eps = PLANE_EPSILON as int;
    let n = vertices.len();
    let mut front: usize = 0;
    let mut back: usize = 0;
    let mut on_plane: usize = 0;
    let mut i: usize = 0;
    while i < n
        invariant
            0 <= i <= n,
            n == vertices@.len(),
            plane.wf(),
            eps == PLANE_EPSILON as int,
            front as int + back as int + on_plane as int == i as int,
            (on_plane == i as int) <==> (forall|j: int|
                0 <= j < i ==> plane.spec_side(#[trigger] vertices@[j], eps)
                    == PlaneSide::OnPlane),
            (back == 0) <==> (forall|j: int|
                0 <= j < i ==> plane.spec_side(#[trigger] vertices@[j], eps) != PlaneSide::Back),
            (front == 0) <==> (forall|j: int|
                0 <= j < i ==> plane.spec_side(#[trigger] vertices@[j], eps) != PlaneSide::Front),
        decreases n - i,
    {
        match plane.classify_point(&vertices[i]) {
            PlaneSide::Front => {
                front = front + 1;
            },
            PlaneSide::Back => {
                back = back + 1;
            },
            PlaneSide::OnPlane => {
                on_plane = on_plane + 1;
            },
        }
        i = i + 1;
    }
    if on_plane == n {
        Classification::Coplanar
    } else if back == 0 {
        Classification::Front
    } else if front == 0 {
        Classification::Back
    } else {
        Classification::Spanning
    }
}

/// What [`Polygon::are_coplanar`] decides: with more than three vertices,
/// every vertex from the fourth on must lie on the plane of the first
/// three.
pub open spec fn spec_coplanar(vs: Seq<Point3>) -> bool {
    vs.len() <= 3 || (forall|j: int|
        3 <= j < vs.len() ==> spec_plane_of(vs).spec_side(#[trigger] vs[j], PLANE_EPSILON as int)
            == PlaneSide::OnPlane)
}

/// The derived supporting plane of a non-degenerate in-range vertex list is
/// well formed, and its stored fields are exactly the mathematical normal
/// and offset (no truncation occurs in the casts).
pub proof fn lemma_plane_of_wf(vs: Seq<Point3>)
    requires
        vs.len() >= 3,
        all_in_coord_range(vs),
        !spec_degenerate(vs),
    ensures
        spec_plane_of(vs).wf(),
        spec_plane_of(vs).normal.x == tri_nx(vs[0], vs[1], vs[2]),
        spec_plane_of(vs).normal.y == tri_ny(vs[0], vs[1], vs[2]),
        spec_plane_of(vs).normal.z == tri_nz(vs[0], vs[1], vs[2]),
        spec_plane_of(vs).offset == dot_vp(spec_plane_of(vs).normal, vs[0]),
        spec_plane_of(vs).spec_signed_distance(vs[0]) == 0,
{
    let a = vs[0];
    let b = vs[1];
    let c = vs[2];
    crate::geom::lemma_mul_bound(
        (b.y - a.y) as int,
        (c.z - a.z) as int,
        0x20_0000,
        0x20_0000,
    );
    crate::geom::lemma_mul_bound(
        (b.z - a.z) as int,
        (c.y - a.y) as int,
        0x20_0000,
        0x20_0000,
    );
    crate::geom::lemma_mul_bound(
        (b.z - a.z) as int,
        (c.x - a.x) as int,
        0x20_0000,
        0x20_0000,
    );
    crate::geom::lemma_mul_bound(
        (b.x - a.x) as int,
        (c.z - a.z) as int,
        0x20_0000,
        0x20_0000,
    );
    crate::geom::lemma_mul_bound(
        (b.x - a.x) as int,
        (c.y - a.y) as int,
        0x20_0000,
        0x20_0000,
    );
    crate::geom::lemma_mul_bound(
        (b.y - a.y) as int,
        (c.x - a.x) as int,
        0x20_0000,
        0x20_0000,
    );
    let n = spec_plane_of(vs).normal;
    crate::geom::lemma_mul_bound(n.x as int, a.x as int, 0x800_0000_0000, 0x10_0000);
    crate::geom::lemma_mul_bound(n.y as int, a.y as int, 0x800_0000_0000, 0x10_0000);
    crate::geom::lemma_mul_bound(n.z as int, a.z as int, 0x800_0000_0000, 0x10_0000);
}

impl Clone for Polygon {
    /// Clones the polygon; the copy has the same vertex sequence.
    fn clone(&self) -> (r: Polygon)
        ensures
            r@ == self@,
    {
        let n = self.vertices.len();
        let mut vs: Vec<Point3> = Vec::new();
        let mut i: usize = 0;
        while i < n
            invariant
                0 <= i <= n,
                n == self.vertices@.len(),
                vs@ =~= self.vertices@.subrange(0, i as int),
            decreases n - i,
        {
            vs.push(self.vertices[i]);
            i = i + 1;
        }
        proof {
            assert(vs@ =~= self.vertices@);
        }
        Polygon { vertices: vs }
    }
}

impl PartialEq for Polygon {
    /// Two polygons are equal when their vertex sequences are equal.
    fn eq(&self, other: &Polygon) -> (r: bool) {
        let n = self.vertices.len();
        if n != other.vertices.len() {
            proof {
                assert(self@ != other@);
            }
            return false;
        }
        let mut i: usize = 0;
        while i < n
            invariant
                0 <= i <= n,
                n == self@.len(),
                n == other@.len(),
                forall|j: int| 0 <= j < i ==> self@[j] == other@[j],
            decreases n - i,
        {
            if self.vertices[i] != other.vertices[i] {
                proof {
                    assert(self@[i as int] != other@[i as int]);
                }
                return false;
            }
            i = i + 1;
        }
        proof {
            assert(self@ =~= other@);
        }
        true
    }
}

impl vstd::std_specs::cmp::PartialEqSpecImpl for Polygon {
    open spec fn obeys_eq_spec() -> bool {
        true
    }

    open spec fn eq_spec(&self, other: &Polygon) -> bool {
        self@ == other@
    }
}

/// Classification is a pure function of the vertex list, the plane, and
/// the tolerance: classifying the same shape against the same plane twice
/// yields the same result.
pub proof fn lemma_classify_idempotent(
    vs: Seq<Point3>,
    plane: Plane3D,
    eps: int,
    c1: Classification,
    c2: Classification,
)
    requires
        c1 == spec_classify(vs, plane, eps),
        c2 == spec_classify(vs, plane, eps),
    ensures
        c1 == c2,
{
}

} // verus!
