//! Cutting shapes by planes: the boundary-walk clipping algorithm.

use crate::geom::{in_coord_range, norm1, Point3, Vector3};
use crate::plane::{
    lemma_cut_point_on_plane, lemma_norm1_positive, spec_interpolate, Classification, Plane3D,
    PlaneSide, PLANE_EPSILON,
};
use crate::polygon::{all_in_coord_range, spec_classify, Polygon};
use vstd::arithmetic::mul::lemma_mul_nonnegative;
use vstd::prelude::*;

verus! {

/// The successor of `i` in the cyclic vertex order of a shape with `n`
/// vertices.
pub open spec fn next_index(n: int, i: int) -> int {
    if i + 1 == n {
        0
    } else {
        i + 1
    }
}

/// Whether the edge leaving vertex `i` strictly crosses the plane: its
/// endpoints classify `Front` and `Back` in either order.  An edge with an
/// on-plane endpoint never counts as crossing.
pub open spec fn edge_crosses(vs: Seq<Point3>, plane: Plane3D, eps: int, i: int) -> bool {
    let sa = plane.spec_side(vs[i], eps);
    let sb = plane.spec_side(vs[next_index(vs.len() as int, i)], eps);
    (sa == PlaneSide::Front && sb == PlaneSide::Back) || (sa == PlaneSide::Back && sb
        == PlaneSide::Front)
}

/// The point [`Plane3D::intersect_segment`] computes for a strictly
/// crossing segment, whichever endpoint is in front.
pub open spec fn spec_crossing_point(plane: Plane3D, a: Point3, b: Point3) -> Point3 {
    let sa = plane.spec_signed_distance(a);
    let sb = plane.spec_signed_distance(b);
    let denom = sb - sa;
    if denom > 0 {
        spec_interpolate(a, b, -sa, denom)
    } else {
        spec_interpolate(a, b, sa, -denom)
    }
}

/// What the boundary walk appends to the front list at vertex `i`: the
/// vertex itself when it is in front of or on the plane, then the crossing
/// point when the edge to the next vertex strictly crosses.
pub open spec fn front_contrib(vs: Seq<Point3>, plane: Plane3D, eps: int, i: int) -> Seq<Point3> {
    let s = plane.spec_side(vs[i], eps);
    let base: Seq<Point3> = if s == PlaneSide::Front || s == PlaneSide::OnPlane {
        seq![vs[i]]
    } else {
        Seq::empty()
    };
    if edge_crosses(vs, plane, eps, i) {
        base.push(spec_crossing_point(plane, vs[i], vs[next_index(vs.len() as int, i)]))
    } else {
        base
    }
}

/// What the boundary walk appends to the back list at vertex `i`.
pub open spec fn back_contrib(vs: Seq<Point3>, plane: Plane3D, eps: int, i: int) -> Seq<Point3> {
    let s = plane.spec_side(vs[i], eps);
    let base: Seq<Point3> = if s == PlaneSide::Back || s == PlaneSide::OnPlane {
        seq![vs[i]]
    } else {
        Seq::empty()
    };
    if edge_crosses(vs, plane, eps, i) {
        base.push(spec_crossing_point(plane, vs[i], vs[next_index(vs.len() as int, i)]))
    } else {
        base
    }
}

/// The front vertex list after the walk has processed the first `k`
/// vertices.
pub open spec fn front_parts(vs: Seq<Point3>, plane: Plane3D, eps: int, k: int) -> Seq<Point3>
    decreases k,
{
    if k <= 0 {
        Seq::empty()
    } else {
        front_parts(vs, plane, eps, k - 1) + front_contrib(vs, plane, eps, k - 1)
    }
}

/// The back vertex list after the walk has processed the first `k`
/// vertices.
pub open spec fn back_parts(vs: Seq<Point3>, plane: Plane3D, eps: int, k: int) -> Seq<Point3>
    decreases k,
{
    if k <= 0 {
        Seq::empty()
    } else {
        back_parts(vs, plane, eps, k - 1) + back_contrib(vs, plane, eps, k - 1)
    }
}

/// What `cut` returns, as a relation between the input vertex list, the
/// plane, and the result pair: one-sided shapes come back whole on that
/// side (coplanar ones in front), and a spanning shape is split by the
/// boundary walk, each side kept only when it has at least three vertices.
pub open spec fn spec_cut_result(
    vs: Seq<Point3>,
    plane: Plane3D,
    r: (Option<Polygon>, Option<Polygon>),
) -> bool {
    let eps = PLANE_EPSILON as int;
    match spec_classify(vs, plane, eps) {
        Classification::Front | Classification::Coplanar => {
            &&& (match r.0 {
                Some(f) => f@ == vs,
                None => false,
            })
            &&& r.1 is None
        },
        Classification::Back => {
            &&& r.0 is None
            &&& (match r.1 {
                Some(b) => b@ == vs,
                None => false,
            })
        },
        Classification::Spanning => {
            let fv = front_parts(vs, plane, eps, vs.len() as int);
            let bv = back_parts(vs, plane, eps, vs.len() as int);
            &&& (match r.0 {
                Some(f) => fv.len() >= 3 && f@ == fv,
                None => fv.len() < 3,
            })
            &&& (match r.1 {
                Some(b) => bv.len() >= 3 && b@ == bv,
                None => bv.len() < 3,
            })
        },
    }
}

/// Geometry that can be cut by a plane into a front part and a back part.
pub trait Cuttable {
    /// The vertex list the cut operates on.
    spec fn cut_view(&self) -> Seq<Point3>;

    /// Whether the shape is well-formed enough to cut.
    spec fn cut_ready(&self) -> bool;

    /// Cuts the geometry by a plane, returning `(front, back)`:
    ///
    /// - entirely in front, or coplanar: `(Some(self), None)`;
    /// - entirely behind: `(None, Some(self))`;
    /// - spanning: the two clipped parts, each present when it has at
    ///   least three vertices.
    fn cut(&self, plane: &Plane3D) -> (r: (Option<Polygon>, Option<Polygon>))
        requires
            plane.wf(),
            self.cut_ready(),
        ensures
            spec_cut_result(self.cut_view(), *plane, r),
    ;
}

impl Cuttable for Polygon {
    open spec fn cut_view(&self) -> Seq<Point3> {
        self@
    }

    open spec fn cut_ready(&self) -> bool {
        self.wf()
    }

    fn cut(&self, plane: &Plane3D) -> (r: (Option<Polygon>, Option<Polygon>)) {
        match self.classify(plane) {
            Classification::Front | Classification::Coplanar => (Some(self.clone()), None),
            Classification::Back => (None, Some(self.clone())),
            Classification::Spanning => split_polygon(self, plane),
        }
    }
}

/// Splits a spanning polygon into front and back parts by a single
/// boundary walk: each vertex goes to the list(s) of its side (on-plane
/// vertices to both), and each strictly crossing edge contributes its
/// plane intersection point to both lists.
fn split_polygon(polygon: &Polygon, plane: &Plane3D) -> (r: (
    Option<Polygon>,
    Option<Polygon>,
))
    requires
        plane.wf(),
        polygon.wf(),
        spec_classify(polygon@, *plane, PLANE_EPSILON as int) == Classification::Spanning,
    ensures
        ({
            let eps = PLANE_EPSILON as int;
            let fv = front_parts(polygon@, *plane, eps, polygon@.len() as int);
            let bv = back_parts(polygon@, *plane, eps, polygon@.len() as int);
            &&& (match r.0 {
                Some(f) => fv.len() >= 3 && f@ == fv,
                None => fv.len() < 3,
            })
            &&& (match r.1 {
                Some(b) => bv.len() >= 3 && b@ == bv,
                None => bv.len() < 3,
            })
        }),
{
    let ghost eps = PLANE_EPSILON as int;
    let ghost vs = polygon@;
    let n = polygon.vertices.len();

    // Classify all vertices upfront, so the walk and the classification
    // agree exactly.
    let mut sides: Vec<PlaneSide> = Vec::new();
    let mut i: usize = 0;
    while i < n
        invariant
            0 <= i <= n,
            n == vs.len(),
            vs == polygon@,
            plane.wf(),
            polygon.wf(),
            eps == PLANE_EPSILON as int,
            sides@.len() == i as int,
            forall|j: int| 0 <= j < i ==> sides@[j] == plane.spec_side(vs[j], eps),
        decreases n - i,
    {
        let s = plane.classify_point(&polygon.vertices[i]);
        sides.push(s);
        i = i + 1;
    }

    let mut front_verts: Vec<Point3> = Vec::new();
    let mut back_verts: Vec<Point3> = Vec::new();
    let mut i: usize = 0;
    while i < n
        invariant
            0 <= i <= n,
            n == vs.len(),
            n >= 3,
            vs == polygon@,
            plane.wf(),
            polygon.wf(),
            eps == PLANE_EPSILON as int,
            sides@.len() == n as int,
            forall|j: int| 0 <= j < n ==> sides@[j] == plane.spec_side(vs[j], eps),
            front_verts@ == front_parts(vs, *plane, eps, i as int),
            back_verts@ == back_parts(vs, *plane, eps, i as int),
            all_in_coord_range(front_verts@),
            all_in_coord_range(back_verts@),
        decreases n - i,
    {
        let current = polygon.vertices[i];
        let current_side = sides[i];
        let next_i = if i + 1 == n {
            0
        } else {
            i + 1
        };
        let next = polygon.vertices[next_i];
        let next_side = sides[next_i];
        proof {
            assert(next_i as int == next_index(n as int, i as int));
            assert(in_coord_range(current) && in_coord_range(next));
        }

        // Add the current vertex to the list(s) of its side.
        match current_side {
            PlaneSide::Front => front_verts.push(current),
            PlaneSide::Back => back_verts.push(current),
            PlaneSide::OnPlane => {
                front_verts.push(current);
                back_verts.push(current);
            },
        }

        // A strictly crossing edge contributes its intersection point to
        // both sides.
        let crosses = matches!(
            (current_side, next_side),
            (PlaneSide::Front, PlaneSide::Back) | (PlaneSide::Back, PlaneSide::Front)
        );
        if crosses {
            proof {
                lemma_crossing_some(*plane, current, next, eps);
            }
            match plane.intersect_segment(&current, &next) {
                Some(hit) => {
                    front_verts.push(hit.2);
                    back_verts.push(hit.2);
                },
                None => {
                    vstd::pervasive::unreached::<()>()
                },
            }
        }
        proof {
            assert(front_verts@ =~= front_parts(vs, *plane, eps, i as int) + front_contrib(
                vs,
                *plane,
                eps,
                i as int,
            ));
            assert(back_verts@ =~= back_parts(vs, *plane, eps, i as int) + back_contrib(
                vs,
                *plane,
                eps,
                i as int,
            ));
        }
        i = i + 1;
    }

    let front = if front_verts.len() >= 3 {
        Some(Polygon::new(front_verts))
    } else {
        None
    };
    let back = if back_verts.len() >= 3 {
        Some(Polygon::new(back_verts))
    } else {
        None
    };
    (front, back)
}

/// For a strictly crossing segment, the intersection exists: the result of
/// `intersect_segment` is the crossing point, which lies on the coordinate
/// grid and classifies on the plane at every tolerance of at least one grid
/// unit.
pub proof fn lemma_crossing_some(plane: Plane3D, a: Point3, b: Point3, eps: int)
    requires
        plane.wf(),
        in_coord_range(a),
        in_coord_range(b),
        1 <= eps,
        ({
            let sa = plane.spec_side(a, eps);
            let sb = plane.spec_side(b, eps);
            (sa == PlaneSide::Front && sb == PlaneSide::Back) || (sa == PlaneSide::Back && sb
                == PlaneSide::Front)
        }),
    ensures
        ({
            let q = spec_crossing_point(plane, a, b);
            &&& (match plane.spec_intersect(a, b) {
                Some(hit) => hit.2 == q,
                None => false,
            })
            &&& in_coord_range(q)
            &&& forall|e2: int| 1 <= e2 ==> plane.spec_side(q, e2) == PlaneSide::OnPlane
        }),
{
    let sa = plane.spec_signed_distance(a);
    let sb = plane.spec_signed_distance(b);
    lemma_norm1_positive(plane.normal);
    lemma_mul_nonnegative(eps, norm1(plane.normal));
    assert(eps * norm1(plane.normal) >= 1 * norm1(plane.normal)) by (nonlinear_arith)
        requires
            eps >= 1,
            norm1(plane.normal) >= 0,
    ;
    if plane.spec_side(a, eps) == PlaneSide::Front {
        // Front-to-back: the parameter is measured from `a`.
        lemma_cut_point_on_plane(plane, a, b, eps);
        assert(spec_crossing_point(plane, a, b) == plane.spec_cut_point(a, b));
    } else {
        // Back-to-front: the same segment against the flipped plane puts
        // `a` in front, and the flipped plane rounds identically.
        let fl = Plane3D {
            normal: Vector3 {
                x: (-plane.normal.x) as i64,
                y: (-plane.normal.y) as i64,
                z: (-plane.normal.z) as i64,
            },
            offset: (-plane.offset) as i128,
        };
        assert(fl.normal.x == -plane.normal.x && fl.normal.y == -plane.normal.y && fl.normal.z
            == -plane.normal.z && fl.offset == -plane.offset);
        assert(fl.wf());
        assert(norm1(fl.normal) == norm1(plane.normal));
        lemma_flip_signed_distance(plane, fl, a);
        lemma_flip_signed_distance(plane, fl, b);
        lemma_cut_point_on_plane(fl, a, b, eps);
        let q = fl.spec_cut_point(a, b);
        assert(spec_crossing_point(plane, a, b) == q);
        assert forall|e2: int| 1 <= e2 implies plane.spec_side(q, e2) == PlaneSide::OnPlane by {
            lemma_flip_signed_distance(plane, fl, q);
            lemma_mul_nonnegative(e2, norm1(plane.normal));
            assert(e2 * norm1(plane.normal) >= 1 * norm1(plane.normal)) by (nonlinear_arith)
                requires
                    e2 >= 1,
                    norm1(plane.normal) >= 0,
            ;
        }
    }
}

/// Every vertex the walk puts on the front side lies on the coordinate
/// grid and classifies front-or-on-plane: kept vertices were classified
/// `Front` or `OnPlane`, and inserted crossing points always classify
/// `OnPlane`.
pub proof fn lemma_front_parts_sides(vs: Seq<Point3>, plane: Plane3D, eps: int, k: int)
    requires
        plane.wf(),
        all_in_coord_range(vs),
        1 <= eps,
        k <= vs.len(),
    ensures
        all_in_coord_range(front_parts(vs, plane, eps, k)),
        forall|j: int|
            0 <= j < front_parts(vs, plane, eps, k).len() ==> plane.spec_side(
                #[trigger] front_parts(vs, plane, eps, k)[j],
                eps,
            ) != PlaneSide::Back,
    decreases k,
{
    if k > 0 {
        lemma_front_parts_sides(vs, plane, eps, k - 1);
        let i = k - 1;
        if edge_crosses(vs, plane, eps, i) {
            lemma_crossing_some(plane, vs[i], vs[next_index(vs.len() as int, i)], eps);
        }
        assert forall|j: int| 0 <= j < front_parts(vs, plane, eps, k).len() implies plane.spec_side(
            #[trigger] front_parts(vs, plane, eps, k)[j],
            eps,
        ) != PlaneSide::Back && in_coord_range(front_parts(vs, plane, eps, k)[j]) by {
            let prev = front_parts(vs, plane, eps, i);
            if j < prev.len() {
                assert(front_parts(vs, plane, eps, k)[j] == prev[j]);
            } else {
                assert(front_parts(vs, plane, eps, k)[j] == front_contrib(vs, plane, eps, i)[j
                    - prev.len()]);
            }
        }
    }
}

/// Every vertex the walk puts on the back side lies on the coordinate grid
/// and classifies back-or-on-plane.
pub proof fn lemma_back_parts_sides(vs: Seq<Point3>, plane: Plane3D, eps: int, k: int)
    requires
        plane.wf(),
        all_in_coord_range(vs),
        1 <= eps,
        k <= vs.len(),
    ensures
        all_in_coord_range(back_parts(vs, plane, eps, k)),
        forall|j: int|
            0 <= j < back_parts(vs, plane, eps, k).len() ==> plane.spec_side(
                #[trigger] back_parts(vs, plane, eps, k)[j],
                eps,
            ) != PlaneSide::Front,
    decreases k,
{
    if k > 0 {
        lemma_back_parts_sides(vs, plane, eps, k - 1);
        let i = k - 1;
        if edge_crosses(vs, plane, eps, i) {
            lemma_crossing_some(plane, vs[i], vs[next_index(vs.len() as int, i)], eps);
        }
        assert forall|j: int| 0 <= j < back_parts(vs, plane, eps, k).len() implies plane.spec_side(
            #[trigger] back_parts(vs, plane, eps, k)[j],
            eps,
        ) != PlaneSide::Front && in_coord_range(back_parts(vs, plane, eps, k)[j]) by {
            let prev = back_parts(vs, plane, eps, i);
            if j < prev.len() {
                assert(back_parts(vs, plane, eps, k)[j] == prev[j]);
            } else {
                assert(back_parts(vs, plane, eps, k)[j] == back_contrib(vs, plane, eps, i)[j
                    - prev.len()]);
            }
        }
    }
}

/// Number of vertices among the first `k` that classify as `s`.
spec fn count_side(vs: Seq<Point3>, plane: Plane3D, eps: int, s: PlaneSide, k: int) -> int
    decreases k,
{
    if k <= 0 {
        0
    } else {
        count_side(vs, plane, eps, s, k - 1) + (if plane.spec_side(vs[k - 1], eps) == s {
            1int
        } else {
            0
        })
    }
}

/// Number of strictly crossing edges among the first `k`.
spec fn count_cross(vs: Seq<Point3>, plane: Plane3D, eps: int, k: int) -> int
    decreases k,
{
    if k <= 0 {
        0
    } else {
        count_cross(vs, plane, eps, k - 1) + (if edge_crosses(vs, plane, eps, k - 1) {
            1int
        } else {
            0
        })
    }
}

/// The front list gains one entry for every front or on-plane vertex and
/// one for every crossing edge; the back list mirrors this.
proof fn lemma_parts_len_as_counts(vs: Seq<Point3>, plane: Plane3D, eps: int, k: int)
    ensures
        front_parts(vs, plane, eps, k).len() == count_side(vs, plane, eps, PlaneSide::Front, k)
            + count_side(vs, plane, eps, PlaneSide::OnPlane, k) + count_cross(vs, plane, eps, k),
        back_parts(vs, plane, eps, k).len() == count_side(vs, plane, eps, PlaneSide::Back, k)
            + count_side(vs, plane, eps, PlaneSide::OnPlane, k) + count_cross(vs, plane, eps, k),
    decreases k,
{
    if k > 0 {
        lemma_parts_len_as_counts(vs, plane, eps, k - 1);
    }
}

/// A side count only grows with the prefix, and a witness below `k` makes
/// it positive.
proof fn lemma_count_side_one(vs: Seq<Point3>, plane: Plane3D, eps: int, s: PlaneSide, j: int, k: int)
    requires
        0 <= j < k,
        plane.spec_side(vs[j], eps) == s,
    ensures
        count_side(vs, plane, eps, s, k) >= 1,
        count_side(vs, plane, eps, s, k) >= count_side(vs, plane, eps, s, j + 1) >= 1,
    decreases k,
{
    lemma_count_side_nonneg(vs, plane, eps, s, j);
    if k > j + 1 {
        lemma_count_side_one(vs, plane, eps, s, j, k - 1);
    }
}

proof fn lemma_count_side_nonneg(vs: Seq<Point3>, plane: Plane3D, eps: int, s: PlaneSide, k: int)
    ensures
        count_side(vs, plane, eps, s, k) >= 0,
    decreases k,
{
    if k > 0 {
        lemma_count_side_nonneg(vs, plane, eps, s, k - 1);
    }
}

/// Two distinct witnesses make a side count at least two.
proof fn lemma_count_side_two(
    vs: Seq<Point3>,
    plane: Plane3D,
    eps: int,
    s: PlaneSide,
    j1: int,
    j2: int,
    k: int,
)
    requires
        0 <= j1 < j2 < k,
        plane.spec_side(vs[j1], eps) == s,
        plane.spec_side(vs[j2], eps) == s,
    ensures
        count_side(vs, plane, eps, s, k) >= 2,
    decreases k,
{
    if k == j2 + 1 {
        lemma_count_side_one(vs, plane, eps, s, j1, j2);
        assert(count_side(vs, plane, eps, s, j2) >= 1);
    } else {
        lemma_count_side_two(vs, plane, eps, s, j1, j2, k - 1);
    }
}

proof fn lemma_count_cross_nonneg(vs: Seq<Point3>, plane: Plane3D, eps: int, k: int)
    ensures
        count_cross(vs, plane, eps, k) >= 0,
    decreases k,
{
    if k > 0 {
        lemma_count_cross_nonneg(vs, plane, eps, k - 1);
    }
}

/// A crossing edge below `k` makes the crossing count positive.
proof fn lemma_count_cross_one(vs: Seq<Point3>, plane: Plane3D, eps: int, j: int, k: int)
    requires
        0 <= j < k,
        edge_crosses(vs, plane, eps, j),
    ensures
        count_cross(vs, plane, eps, k) >= 1,
    decreases k,
{
    lemma_count_cross_nonneg(vs, plane, eps, j);
    if k > j + 1 {
        lemma_count_cross_one(vs, plane, eps, j, k - 1);
    }
}

/// Two distinct crossing edges make the crossing count at least two.
proof fn lemma_count_cross_two(
    vs: Seq<Point3>,
    plane: Plane3D,
    eps: int,
    j1: int,
    j2: int,
    k: int,
)
    requires
        0 <= j1 < j2 < k,
        edge_crosses(vs, plane, eps, j1),
        edge_crosses(vs, plane, eps, j2),
    ensures
        count_cross(vs, plane, eps, k) >= 2,
    decreases k,
{
    if k == j2 + 1 {
        lemma_count_cross_one(vs, plane, eps, j1, j2);
    } else {
        lemma_count_cross_two(vs, plane, eps, j1, j2, k - 1);
    }
}

/// An index advanced by less than one full turn, wrapped back into range.
spec fn cyc(n: int, i: int) -> int {
    if i >= n {
        i - n
    } else {
        i
    }
}

/// A witness that the walk starting at `start` finds a unit contribution at
/// offset `m`: a crossing edge there, or (past the start) an on-plane
/// vertex.
spec fn walk_witness(
    vs: Seq<Point3>,
    plane: Plane3D,
    eps: int,
    start: int,
    d: int,
    m: int,
) -> bool {
    let n = vs.len() as int;
    let k = cyc(n, start + m);
    0 <= m < d && (edge_crosses(vs, plane, eps, k) || (1 <= m && plane.spec_side(vs[k], eps)
        == PlaneSide::OnPlane))
}

/// Walking forward from a strictly front vertex to a strictly back vertex
/// passes a crossing edge or an on-plane vertex strictly before arriving.
proof fn lemma_walk_front_to_back(vs: Seq<Point3>, plane: Plane3D, eps: int, start: int, d: int)
    requires
        vs.len() >= 1,
        0 <= start < vs.len(),
        1 <= d < vs.len(),
        plane.spec_side(vs[start], eps) == PlaneSide::Front,
        plane.spec_side(vs[cyc(vs.len() as int, start + d)], eps) == PlaneSide::Back,
    ensures
        exists|m: int| walk_witness(vs, plane, eps, start, d, m),
    decreases d,
{
    let n = vs.len() as int;
    let i1 = cyc(n, start + 1);
    assert(i1 == next_index(n, start));
    let s1 = plane.spec_side(vs[i1], eps);
    if s1 == PlaneSide::Back {
        assert(edge_crosses(vs, plane, eps, cyc(n, start + 0)));
        assert(walk_witness(vs, plane, eps, start, d, 0));
    } else if s1 == PlaneSide::OnPlane {
        assert(d != 1);
        assert(walk_witness(vs, plane, eps, start, d, 1));
    } else {
        assert(d != 1);
        assert(cyc(n, i1 + (d - 1)) == cyc(n, start + d));
        let dm = d - 1;
        lemma_walk_front_to_back(vs, plane, eps, i1, dm);
        let m0 = choose|m: int| walk_witness(vs, plane, eps, i1, dm, m);
        assert(cyc(n, start + (m0 + 1)) == cyc(n, i1 + m0));
        assert(walk_witness(vs, plane, eps, start, d, m0 + 1));
    }
}

/// The mirror walk: from a strictly back vertex to a strictly front vertex.
proof fn lemma_walk_back_to_front(vs: Seq<Point3>, plane: Plane3D, eps: int, start: int, d: int)
    requires
        vs.len() >= 1,
        0 <= start < vs.len(),
        1 <= d < vs.len(),
        plane.spec_side(vs[start], eps) == PlaneSide::Back,
        plane.spec_side(vs[cyc(vs.len() as int, start + d)], eps) == PlaneSide::Front,
    ensures
        exists|m: int| walk_witness(vs, plane, eps, start, d, m),
    decreases d,
{
    let n = vs.len() as int;
    let i1 = cyc(n, start + 1);
    assert(i1 == next_index(n, start));
    let s1 = plane.spec_side(vs[i1], eps);
    if s1 == PlaneSide::Front {
        assert(edge_crosses(vs, plane, eps, cyc(n, start + 0)));
        assert(walk_witness(vs, plane, eps, start, d, 0));
    } else if s1 == PlaneSide::OnPlane {
        assert(d != 1);
        assert(walk_witness(vs, plane, eps, start, d, 1));
    } else {
        assert(d != 1);
        assert(cyc(n, i1 + (d - 1)) == cyc(n, start + d));
        let dm = d - 1;
        lemma_walk_back_to_front(vs, plane, eps, i1, dm);
        let m0 = choose|m: int| walk_witness(vs, plane, eps, i1, dm, m);
        assert(cyc(n, start + (m0 + 1)) == cyc(n, i1 + m0));
        assert(walk_witness(vs, plane, eps, start, d, m0 + 1));
    }
}

/// A spanning shape always splits into two usable parts: the boundary walk
/// gives each side at least three vertices.
///
/// The count of each output list is the number of vertices on that side or
/// on the plane, plus the number of crossing edges.  A spanning shape has a
/// strictly front vertex and a strictly back vertex; walking the cycle from
/// one to the other and back again yields two further contributions
/// (crossings or on-plane vertices) at distinct places, so each list
/// reaches three.
pub proof fn lemma_spanning_two_parts(vs: Seq<Point3>, plane: Plane3D, eps: int)
    requires
        vs.len() >= 3,
        spec_classify(vs, plane, eps) == Classification::Spanning,
    ensures
        front_parts(vs, plane, eps, vs.len() as int).len() >= 3,
        back_parts(vs, plane, eps, vs.len() as int).len() >= 3,
{
    let n = vs.len() as int;
    let f = choose|i: int|
        0 <= i < n && plane.spec_side(#[trigger] vs[i], eps) == PlaneSide::Front;
    let b = choose|i: int| 0 <= i < n && plane.spec_side(#[trigger] vs[i], eps) == PlaneSide::Back;
    assert(plane.spec_side(vs[f], eps) == PlaneSide::Front && 0 <= f < n);
    assert(plane.spec_side(vs[b], eps) == PlaneSide::Back && 0 <= b < n);
    let d1 = if b > f {
        b - f
    } else {
        b + n - f
    };
    let d2 = n - d1;
    assert(1 <= d1 < n && 1 <= d2 < n);
    assert(cyc(n, f + d1) == b);
    assert(cyc(n, b + d2) == f);
    lemma_walk_front_to_back(vs, plane, eps, f, d1);
    lemma_walk_back_to_front(vs, plane, eps, b, d2);
    let m1 = choose|m: int| walk_witness(vs, plane, eps, f, d1, m);
    let m2 = choose|m: int| walk_witness(vs, plane, eps, b, d2, m);
    let k1 = cyc(n, f + m1);
    let k2 = cyc(n, b + m2);
    // The two witnesses lie in disjoint windows of the cycle.
    assert(k2 == cyc(n, f + (d1 + m2)));
    assert(k1 != k2) by {
        assert(0 <= m1 < d1 + m2 < n);
        lemma_cyc_injective(n, f, m1, d1 + m2);
    }
    assert(0 <= k1 < n && 0 <= k2 < n);
    let w1_cross = edge_crosses(vs, plane, eps, k1);
    let w2_cross = edge_crosses(vs, plane, eps, k2);
    lemma_parts_len_as_counts(vs, plane, eps, n);
    lemma_count_side_one(vs, plane, eps, PlaneSide::Front, f, n);
    lemma_count_side_one(vs, plane, eps, PlaneSide::Back, b, n);
    lemma_count_side_nonneg(vs, plane, eps, PlaneSide::Front, n);
    lemma_count_side_nonneg(vs, plane, eps, PlaneSide::Back, n);
    lemma_count_side_nonneg(vs, plane, eps, PlaneSide::OnPlane, n);
    lemma_count_cross_nonneg(vs, plane, eps, n);
    if w1_cross && w2_cross {
        if k1 < k2 {
            lemma_count_cross_two(vs, plane, eps, k1, k2, n);
        } else {
            lemma_count_cross_two(vs, plane, eps, k2, k1, n);
        }
    } else if w1_cross && !w2_cross {
        lemma_count_cross_one(vs, plane, eps, k1, n);
        lemma_count_side_one(vs, plane, eps, PlaneSide::OnPlane, k2, n);
    } else if !w1_cross && w2_cross {
        lemma_count_side_one(vs, plane, eps, PlaneSide::OnPlane, k1, n);
        lemma_count_cross_one(vs, plane, eps, k2, n);
    } else {
        if k1 < k2 {
            lemma_count_side_two(vs, plane, eps, PlaneSide::OnPlane, k1, k2, n);
        } else {
            lemma_count_side_two(vs, plane, eps, PlaneSide::OnPlane, k2, k1, n);
        }
    }
}

/// Advancing by two different amounts of less than a full turn lands on two
/// different indices.
proof fn lemma_cyc_injective(n: int, base: int, o1: int, o2: int)
    requires
        0 <= base < n,
        0 <= o1 < o2 < n,
    ensures
        cyc(n, base + o1) != cyc(n, base + o2),
{
}

/// Negating a plane's normal and offset negates every signed distance.
proof fn lemma_flip_signed_distance(plane: Plane3D, fl: Plane3D, p: Point3)
    requires
        fl.normal.x == -plane.normal.x,
        fl.normal.y == -plane.normal.y,
        fl.normal.z == -plane.normal.z,
        fl.offset == -plane.offset,
    ensures
        fl.spec_signed_distance(p) == -plane.spec_signed_distance(p),
{
    assert(fl.normal.x * p.x == -(plane.normal.x * p.x)) by (nonlinear_arith)
        requires
            fl.normal.x == -plane.normal.x,
    ;
    assert(fl.normal.y * p.y == -(plane.normal.y * p.y)) by (nonlinear_arith)
        requires
            fl.normal.y == -plane.normal.y,
    ;
    assert(fl.normal.z * p.z == -(plane.normal.z * p.z)) by (nonlinear_arith)
        requires
            fl.normal.z == -plane.normal.z,
    ;
}

/// A shape entirely on one side of the plane (or on it) is returned whole
/// on exactly one side: coplanar and front shapes in front, back shapes in
/// back, with the original vertex list.
pub proof fn lemma_cut_one_sided(
    vs: Seq<Point3>,
    plane: Plane3D,
    r: (Option<Polygon>, Option<Polygon>),
)
    requires
        spec_cut_result(vs, plane, r),
        spec_classify(vs, plane, PLANE_EPSILON as int) != Classification::Spanning,
    ensures
        spec_classify(vs, plane, PLANE_EPSILON as int) == Classification::Back ==> r.0 is None
            && (match r.1 {
            Some(b) => b@ == vs,
            None => false,
        }),
        spec_classify(vs, plane, PLANE_EPSILON as int) != Classification::Back ==> r.1 is None
            && (match r.0 {
            Some(f) => f@ == vs,
            None => false,
        }),
{
}

/// A spanning shape is always cut into two parts, each with at least three
/// vertices, each entirely on its side of the plane: every vertex of the
/// front part classifies front or on-plane, every vertex of the back part
/// classifies back or on-plane.
pub proof fn lemma_cut_spanning(
    vs: Seq<Point3>,
    plane: Plane3D,
    r: (Option<Polygon>, Option<Polygon>),
)
    requires
        plane.wf(),
        vs.len() >= 3,
        all_in_coord_range(vs),
        spec_cut_result(vs, plane, r),
        spec_classify(vs, plane, PLANE_EPSILON as int) == Classification::Spanning,
    ensures
        match r.0 {
            Some(f) => f@.len() >= 3 && (forall|j: int|
                0 <= j < f@.len() ==> plane.spec_side(#[trigger] f@[j], PLANE_EPSILON as int)
                    != PlaneSide::Back),
            None => false,
        },
        match r.1 {
            Some(b) => b@.len() >= 3 && (forall|j: int|
                0 <= j < b@.len() ==> plane.spec_side(#[trigger] b@[j], PLANE_EPSILON as int)
                    != PlaneSide::Front),
            None => false,
        },
{
    let eps = PLANE_EPSILON as int;
    lemma_spanning_two_parts(vs, plane, eps);
    lemma_front_parts_sides(vs, plane, eps, vs.len() as int);
    lemma_back_parts_sides(vs, plane, eps, vs.len() as int);
}

} // verus!
