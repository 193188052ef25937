//! BSP tree container, construction, and ordered traversal.

use crate::cuttable::{back_parts, front_parts, Cuttable};
use crate::geom::Point3;
use crate::node::{faces_same_direction, spec_faces_same_direction, BspNode};
use crate::plane::{Classification, Plane3D, PlaneSide, PLANE_EPSILON};
use crate::polygon::{
    all_wf, lemma_polys_view_concat, lemma_polys_view_push, lemma_polys_view_swap_remove,
    polys_view, spec_classify, spec_degenerate, spec_plane_of, Polygon,
};
use crate::selector::{FirstPolygon, PlaneSelector};
use crate::visitor::BspVisitor;
use vstd::prelude::*;

verus! {

/// Why a tree build failed.
#[derive(Debug, Clone, Copy, PartialEq, Eq, Structural)]
pub enum BuildError {
    /// A polygon chosen as a splitter has collinear leading vertices, so no
    /// splitting plane can be derived from it.
    DegenerateSplitter,
}

/// What the builder appends to the coplanar-front list for one polygon: the
/// polygon itself when it is coplanar with the node plane and faces the
/// same way.
pub open spec fn contrib_cf(v: Seq<Point3>, plane: Plane3D) -> Seq<Seq<Point3>> {
    if spec_classify(v, plane, PLANE_EPSILON as int) == Classification::Coplanar
        && spec_faces_same_direction(v, plane) {
        seq![v]
    } else {
        Seq::empty()
    }
}

/// Coplanar-back contribution: coplanar, facing the opposite way.
pub open spec fn contrib_cb(v: Seq<Point3>, plane: Plane3D) -> Seq<Seq<Point3>> {
    if spec_classify(v, plane, PLANE_EPSILON as int) == Classification::Coplanar
        && !spec_faces_same_direction(v, plane) {
        seq![v]
    } else {
        Seq::empty()
    }
}

/// Front-list contribution: the polygon itself when entirely in front, or
/// its front fragment when it spans the plane and that fragment survives.
pub open spec fn contrib_fl(v: Seq<Point3>, plane: Plane3D) -> Seq<Seq<Point3>> {
    let eps = PLANE_EPSILON as int;
    match spec_classify(v, plane, eps) {
        Classification::Front => seq![v],
        Classification::Spanning => {
            let fv = front_parts(v, plane, eps, v.len() as int);
            if fv.len() >= 3 {
                seq![fv]
            } else {
                Seq::empty()
            }
        },
        _ => Seq::empty(),
    }
}

/// Back-list contribution: the polygon itself when entirely behind, or its
/// back fragment when it spans the plane and that fragment survives.
pub open spec fn contrib_bl(v: Seq<Point3>, plane: Plane3D) -> Seq<Seq<Point3>> {
    let eps = PLANE_EPSILON as int;
    match spec_classify(v, plane, eps) {
        Classification::Back => seq![v],
        Classification::Spanning => {
            let bv = back_parts(v, plane, eps, v.len() as int);
            if bv.len() >= 3 {
                seq![bv]
            } else {
                Seq::empty()
            }
        },
        _ => Seq::empty(),
    }
}

/// The coplanar-front list after the builder has partitioned the first `k`
/// remaining polygons.
pub open spec fn part_cf(rest: Seq<Seq<Point3>>, plane: Plane3D, k: int) -> Seq<Seq<Point3>>
    decreases k,
{
    if k <= 0 {
        Seq::empty()
    } else {
        part_cf(rest, plane, k - 1) + contrib_cf(rest[k - 1], plane)
    }
}

/// The coplanar-back list after partitioning the first `k` polygons.
pub open spec fn part_cb(rest: Seq<Seq<Point3>>, plane: Plane3D, k: int) -> Seq<Seq<Point3>>
    decreases k,
{
    if k <= 0 {
        Seq::empty()
    } else {
        part_cb(rest, plane, k - 1) + contrib_cb(rest[k - 1], plane)
    }
}

/// The front accumulator after partitioning the first `k` polygons.
pub open spec fn part_fl(rest: Seq<Seq<Point3>>, plane: Plane3D, k: int) -> Seq<Seq<Point3>>
    decreases k,
{
    if k <= 0 {
        Seq::empty()
    } else {
        part_fl(rest, plane, k - 1) + contrib_fl(rest[k - 1], plane)
    }
}

/// The back accumulator after partitioning the first `k` polygons.
pub open spec fn part_bl(rest: Seq<Seq<Point3>>, plane: Plane3D, k: int) -> Seq<Seq<Point3>>
    decreases k,
{
    if k <= 0 {
        Seq::empty()
    } else {
        part_bl(rest, plane, k - 1) + contrib_bl(rest[k - 1], plane)
    }
}

/// Each polygon contributes at most one entry to each partition, so every
/// partition is no longer than the number of polygons partitioned.
pub proof fn lemma_part_lens(rest: Seq<Seq<Point3>>, plane: Plane3D, k: int)
    ensures
        part_cf(rest, plane, k).len() <= (if k >= 0 { k } else { 0 }),
        part_cb(rest, plane, k).len() <= (if k >= 0 { k } else { 0 }),
        part_fl(rest, plane, k).len() <= (if k >= 0 { k } else { 0 }),
        part_bl(rest, plane, k).len() <= (if k >= 0 { k } else { 0 }),
    decreases k,
{
    if k > 0 {
        lemma_part_lens(rest, plane, k - 1);
    }
}

/// The child subtrees of a node, as plain optional nodes.
pub open spec fn opt_unbox(o: Option<Box<BspNode>>) -> Option<BspNode> {
    match o {
        Some(b) => Some(*b),
        None => None,
    }
}

/// Whether building from these polygon views fails: some polygon that ends
/// up chosen as a splitter — here or in a subtree — has no usable plane.
pub open spec fn build_fails<S: PlaneSelector>(sel: &S, polys: Seq<Seq<Point3>>) -> bool
    decreases polys.len(),
    via build_fails_decreases::<S>
{
    if polys.len() == 0 {
        false
    } else {
        let i = sel.spec_select(polys);
        if !(0 <= i < polys.len()) {
            false
        } else {
            let splitter = polys[i];
            let rest = polys.update(i, polys.last()).drop_last();
            if splitter.len() < 3 || spec_degenerate(splitter) {
                true
            } else {
                let plane = spec_plane_of(splitter);
                build_fails(sel, part_fl(rest, plane, rest.len() as int)) || build_fails(
                    sel,
                    part_bl(rest, plane, rest.len() as int),
                )
            }
        }
    }
}

#[via_fn]
proof fn build_fails_decreases<S: PlaneSelector>(sel: &S, polys: Seq<Seq<Point3>>) {
    if polys.len() > 0 {
        let i = sel.spec_select(polys);
        if 0 <= i < polys.len() {
            let splitter = polys[i];
            let rest = polys.update(i, polys.last()).drop_last();
            let plane = spec_plane_of(splitter);
            lemma_part_lens(rest, plane, rest.len() as int);
        }
    }
}

/// How a tree is built from a list of polygon vertex views, as a relation
/// between the input, the selection strategy, and the result.
///
/// An empty input builds no node.  Otherwise the strategy picks a splitter,
/// which is removed by swapping in the last element; a splitter without a
/// usable plane fails the build.  The splitter is filed by facing, every
/// other polygon is filed by its classification against the splitter's
/// plane (spanning polygons are cut), and the two accumulators build the
/// two children.  An error from either child build is the result.
pub open spec fn builds_to<S: PlaneSelector>(
    sel: &S,
    polys: Seq<Seq<Point3>>,
    r: Result<Option<BspNode>, BuildError>,
) -> bool
    decreases polys.len(),
    via builds_to_decreases::<S>
{
    if polys.len() == 0 {
        match r {
            Ok(o) => o is None,
            Err(_) => false,
        }
    } else {
        let i = sel.spec_select(polys);
        &&& 0 <= i < polys.len()
        &&& {
            let splitter = polys[i];
            let rest = polys.update(i, polys.last()).drop_last();
            if splitter.len() < 3 || spec_degenerate(splitter) {
                match r {
                    Ok(_) => false,
                    Err(e) => e == BuildError::DegenerateSplitter,
                }
            } else {
                let plane = spec_plane_of(splitter);
                let base_cf: Seq<Seq<Point3>> = if spec_faces_same_direction(splitter, plane) {
                    seq![splitter]
                } else {
                    Seq::empty()
                };
                let base_cb: Seq<Seq<Point3>> = if spec_faces_same_direction(splitter, plane) {
                    Seq::empty()
                } else {
                    seq![splitter]
                };
                let cf = base_cf + part_cf(rest, plane, rest.len() as int);
                let cb = base_cb + part_cb(rest, plane, rest.len() as int);
                let fl = part_fl(rest, plane, rest.len() as int);
                let bl = part_bl(rest, plane, rest.len() as int);
                match r {
                    Ok(o) => match o {
                        Some(node) => {
                            &&& node.plane == plane
                            &&& polys_view(node.coplanar_front@) == cf
                            &&& polys_view(node.coplanar_back@) == cb
                            &&& builds_to(sel, fl, Ok(opt_unbox(node.front)))
                            &&& builds_to(sel, bl, Ok(opt_unbox(node.back)))
                        },
                        None => false,
                    },
                    Err(e) => e == BuildError::DegenerateSplitter && (build_fails(sel, fl)
                        || build_fails(sel, bl)),
                }
            }
        }
    }
}

/// A successful build means no splitter anywhere lacked a plane: success
/// and failure are mutually exclusive, so the builder returns an error
/// exactly on the inputs where some (possibly derived) splitter is
/// degenerate.
pub proof fn lemma_builds_ok_not_fails<S: PlaneSelector>(
    sel: &S,
    polys: Seq<Seq<Point3>>,
    o: Option<BspNode>,
)
    requires
        builds_to(sel, polys, Ok::<Option<BspNode>, BuildError>(o)),
    ensures
        !build_fails(sel, polys),
    decreases polys.len(),
{
    if polys.len() > 0 {
        let i = sel.spec_select(polys);
        let splitter = polys[i];
        let rest = polys.update(i, polys.last()).drop_last();
        let plane = spec_plane_of(splitter);
        lemma_part_lens(rest, plane, rest.len() as int);
        match o {
            Some(node) => {
                lemma_builds_ok_not_fails(
                    sel,
                    part_fl(rest, plane, rest.len() as int),
                    opt_unbox(node.front),
                );
                lemma_builds_ok_not_fails(
                    sel,
                    part_bl(rest, plane, rest.len() as int),
                    opt_unbox(node.back),
                );
            },
            None => (),
        }
    }
}

/// A failed build means some splitter had no usable plane, and the only
/// error reported is that one.
pub proof fn lemma_builds_err_fails<S: PlaneSelector>(
    sel: &S,
    polys: Seq<Seq<Point3>>,
    e: BuildError,
)
    requires
        builds_to(sel, polys, Err::<Option<BspNode>, BuildError>(e)),
    ensures
        build_fails(sel, polys),
        e == BuildError::DegenerateSplitter,
{
}

#[via_fn]
proof fn builds_to_decreases<S: PlaneSelector>(
    sel: &S,
    polys: Seq<Seq<Point3>>,
    r: Result<Option<BspNode>, BuildError>,
) {
    if polys.len() > 0 {
        let i = sel.spec_select(polys);
        if 0 <= i < polys.len() {
            let splitter = polys[i];
            let rest = polys.update(i, polys.last()).drop_last();
            let plane = spec_plane_of(splitter);
            lemma_part_lens(rest, plane, rest.len() as int);
        }
    }
}

/// Recursively builds a BSP node from a list of polygons.
fn build_node<S: PlaneSelector>(polygons: Vec<Polygon>, selector: &S) -> (r: Result<
    Option<BspNode>,
    BuildError,
>)
    requires
        all_wf(polygons@),
    ensures
        builds_to(selector, polys_view(polygons@), r),
        match r {
            Ok(o) => match o {
                Some(node) => node.wf(),
                None => true,
            },
            Err(_) => true,
        },
    decreases polygons@.len(),
{
    let ghost whole = polys_view(polygons@);
    if polygons.len() == 0 {
        return Ok(None);
    }
    let mut polygons = polygons;
    let ghost orig_seq = polygons@;
    let idx = match selector.select(&polygons) {
        Some(i) => i,
        None => {
            return vstd::pervasive::unreached();
        },
    };
    let splitter = polygons.swap_remove(idx);
    let ghost rest = polys_view(polygons@);
    let ghost sv = splitter@;
    proof {
        lemma_polys_view_swap_remove(orig_seq, idx as int);
        assert(rest == whole.update(idx as int, whole.last()).drop_last());
        assert(sv == whole[idx as int]);
        assert(splitter.wf());
        assert forall|j: int| 0 <= j < polygons@.len() implies (#[trigger] polygons@[j]).wf() by {
            assert(polygons@[j] == orig_seq.update(idx as int, orig_seq.last()).drop_last()[j]);
        }
    }
    if splitter.degenerate() {
        return Err(BuildError::DegenerateSplitter);
    }
    let plane = splitter.plane();
    let ghost base_cf: Seq<Seq<Point3>> = if spec_faces_same_direction(sv, plane) {
        seq![sv]
    } else {
        Seq::empty()
    };
    let ghost base_cb: Seq<Seq<Point3>> = if spec_faces_same_direction(sv, plane) {
        Seq::empty()
    } else {
        seq![sv]
    };

    let mut coplanar_front: Vec<Polygon> = Vec::new();
    let mut coplanar_back: Vec<Polygon> = Vec::new();
    let mut front_list: Vec<Polygon> = Vec::new();
    let mut back_list: Vec<Polygon> = Vec::new();

    // The splitter itself is coplanar with its own plane; file it by facing.
    if faces_same_direction(&splitter, &plane) {
        let ghost pre = coplanar_front@;
        coplanar_front.push(splitter);
        proof {
            lemma_polys_view_push(pre, coplanar_front@.last());
            assert(polys_view(coplanar_front@) =~= base_cf);
            assert(polys_view(coplanar_back@) =~= base_cb);
        }
    } else {
        let ghost pre = coplanar_back@;
        coplanar_back.push(splitter);
        proof {
            lemma_polys_view_push(pre, coplanar_back@.last());
            assert(polys_view(coplanar_back@) =~= base_cb);
            assert(polys_view(coplanar_front@) =~= base_cf);
        }
    }

    // Classify and partition the remaining polygons.
    let n2 = polygons.len();
    let mut k: usize = 0;
    while k < n2
        invariant
            0 <= k <= n2,
            n2 == polygons@.len(),
            rest == polys_view(polygons@),
            all_wf(polygons@),
            plane.wf(),
            plane == spec_plane_of(sv),
            polys_view(coplanar_front@) == base_cf + part_cf(rest, plane, k as int),
            polys_view(coplanar_back@) == base_cb + part_cb(rest, plane, k as int),
            polys_view(front_list@) == part_fl(rest, plane, k as int),
            polys_view(back_list@) == part_bl(rest, plane, k as int),
            all_wf(coplanar_front@),
            all_wf(coplanar_back@),
            all_wf(front_list@),
            all_wf(back_list@),
        decreases n2 - k,
    {
        let polygon = polygons[k].clone();
        proof {
            assert(polygon@ == rest[k as int]);
            assert(polygons@[k as int].wf());
        }
        let ghost pv = polygon@;
        match polygon.classify(&plane) {
            Classification::Front => {
                let ghost pre = front_list@;
                front_list.push(polygon);
                proof {
                    lemma_polys_view_push(pre, front_list@.last());
                    assert(contrib_fl(pv, plane) =~= seq![pv]);
                    assert(polys_view(front_list@) =~= part_fl(rest, plane, k + 1 as int));
                }
            },
            Classification::Back => {
                let ghost pre = back_list@;
                back_list.push(polygon);
                proof {
                    lemma_polys_view_push(pre, back_list@.last());
                    assert(contrib_bl(pv, plane) =~= seq![pv]);
                    assert(polys_view(back_list@) =~= part_bl(rest, plane, k + 1 as int));
                }
            },
            Classification::Coplanar => {
                if faces_same_direction(&polygon, &plane) {
                    let ghost pre = coplanar_front@;
                    coplanar_front.push(polygon);
                    proof {
                        lemma_polys_view_push(pre, coplanar_front@.last());
                        assert(contrib_cf(pv, plane) =~= seq![pv]);
                        assert(polys_view(coplanar_front@) =~= base_cf + part_cf(
                            rest,
                            plane,
                            k + 1 as int,
                        ));
                    }
                } else {
                    let ghost pre = coplanar_back@;
                    coplanar_back.push(polygon);
                    proof {
                        lemma_polys_view_push(pre, coplanar_back@.last());
                        assert(contrib_cb(pv, plane) =~= seq![pv]);
                        assert(polys_view(coplanar_back@) =~= base_cb + part_cb(
                            rest,
                            plane,
                            k + 1 as int,
                        ));
                    }
                }
            },
            Classification::Spanning => {
                let (front_part, back_part) = polygon.cut(&plane);
                proof {
                    crate::cuttable::lemma_front_parts_sides(
                        pv,
                        plane,
                        PLANE_EPSILON as int,
                        pv.len() as int,
                    );
                    crate::cuttable::lemma_back_parts_sides(
                        pv,
                        plane,
                        PLANE_EPSILON as int,
                        pv.len() as int,
                    );
                }
                match front_part {
                    Some(f) => {
                        let ghost pre = front_list@;
                        front_list.push(f);
                        proof {
                            lemma_polys_view_push(pre, front_list@.last());
                            assert(polys_view(front_list@) =~= part_fl(rest, plane, k + 1 as int));
                        }
                    },
                    None => {
                        proof {
                            assert(contrib_fl(pv, plane) =~= Seq::<Seq<Point3>>::empty());
                            assert(polys_view(front_list@) =~= part_fl(rest, plane, k + 1 as int));
                        }
                    },
                }
                match back_part {
                    Some(b) => {
                        let ghost pre = back_list@;
                        back_list.push(b);
                        proof {
                            lemma_polys_view_push(pre, back_list@.last());
                            assert(polys_view(back_list@) =~= part_bl(rest, plane, k + 1 as int));
                        }
                    },
                    None => {
                        proof {
                            assert(contrib_bl(pv, plane) =~= Seq::<Seq<Point3>>::empty());
                            assert(polys_view(back_list@) =~= part_bl(rest, plane, k + 1 as int));
                        }
                    },
                }
            },
        }
        k = k + 1;
    }

    let ghost flv = polys_view(front_list@);
    let ghost blv = polys_view(back_list@);
    proof {
        lemma_part_lens(rest, plane, n2 as int);
    }

    // Build the children from the accumulators.
    let front_node = match build_node(front_list, selector) {
        Ok(o) => o,
        Err(e) => {
            proof {
                lemma_builds_err_fails(selector, flv, e);
                assert(builds_to(selector, whole, Err::<Option<BspNode>, BuildError>(e)));
            }
            return Err(e);
        },
    };
    proof {
        assert(builds_to(selector, flv, Ok::<Option<BspNode>, BuildError>(front_node)));
    }
    let back_node = match build_node(back_list, selector) {
        Ok(o) => o,
        Err(e) => {
            proof {
                lemma_builds_err_fails(selector, blv, e);
                assert(builds_to(selector, whole, Err::<Option<BspNode>, BuildError>(e)));
            }
            return Err(e);
        },
    };

    let front_box = match front_node {
        Some(nd) => Some(Box::new(nd)),
        None => None,
    };
    let back_box = match back_node {
        Some(nd) => Some(Box::new(nd)),
        None => None,
    };
    let node = BspNode {
        plane,
        coplanar_front,
        coplanar_back,
        front: front_box,
        back: back_box,
    };
    proof {
        assert(opt_unbox(node.front) == front_node);
        assert(opt_unbox(node.back) == back_node);
    }
    Ok(Some(node))
}

/// The vertex views a front-to-back traversal of a subtree delivers, in
/// order: from any eye position, the subtree on the eye's side of the
/// node's plane comes first, then the node's own coplanar polygons, then
/// the subtree on the far side.
pub open spec fn ftb_view(node: BspNode, eye: Point3) -> Seq<Seq<Point3>>
    decreases node,
{
    let f = match node.front {
        Some(b) => ftb_view(*b, eye),
        None => Seq::empty(),
    };
    let bk = match node.back {
        Some(b) => ftb_view(*b, eye),
        None => Seq::empty(),
    };
    if node.plane.spec_side(eye, PLANE_EPSILON as int) == PlaneSide::Back {
        bk + node.spec_coplanar() + f
    } else {
        f + node.spec_coplanar() + bk
    }
}

/// The vertex views a back-to-front traversal of a subtree delivers: the
/// exact mirror of [`ftb_view`].
pub open spec fn btf_view(node: BspNode, eye: Point3) -> Seq<Seq<Point3>>
    decreases node,
{
    let f = match node.front {
        Some(b) => btf_view(*b, eye),
        None => Seq::empty(),
    };
    let bk = match node.back {
        Some(b) => btf_view(*b, eye),
        None => Seq::empty(),
    };
    if node.plane.spec_side(eye, PLANE_EPSILON as int) == PlaneSide::Back {
        f + node.spec_coplanar() + bk
    } else {
        bk + node.spec_coplanar() + f
    }
}

/// The vertex views of all polygons in a subtree, in pre-order: coplanar
/// polygons first, then the front subtree, then the back subtree.
pub open spec fn collect_view(node: BspNode) -> Seq<Seq<Point3>>
    decreases node,
{
    let f = match node.front {
        Some(b) => collect_view(*b),
        None => Seq::empty(),
    };
    let bk = match node.back {
        Some(b) => collect_view(*b),
        None => Seq::empty(),
    };
    node.spec_coplanar() + f + bk
}

/// Traverses a subtree front-to-back, handing each node's non-empty
/// coplanar group to the visitor.
fn traverse_ftb_node<V: BspVisitor>(node: &BspNode, eye: &Point3, visitor: &mut V)
    requires
        node.wf(),
    ensures
        final(visitor).seen() == old(visitor).seen() + ftb_view(*node, *eye),
    decreases *node,
{
    let side = node.plane.classify_point(eye);
    let coplanar = node.all_coplanar();
    let ghost s0 = visitor.seen();
    let ghost fpart: Seq<Seq<Point3>> = match &node.front {
        Some(b) => ftb_view(**b, *eye),
        None => Seq::empty(),
    };
    let ghost bkpart: Seq<Seq<Point3>> = match &node.back {
        Some(b) => ftb_view(**b, *eye),
        None => Seq::empty(),
    };
    if matches!(side, PlaneSide::Back) {
        // Eye is behind: the back subtree is nearer.
        match &node.back {
            Some(n) => traverse_ftb_node(&**n, eye, visitor),
            None => (),
        }
        proof {
            assert(visitor.seen() =~= s0 + bkpart);
        }
        if coplanar.len() > 0 {
            visitor.visit(&coplanar);
        }
        proof {
            assert(visitor.seen() =~= s0 + bkpart + node.spec_coplanar());
        }
        match &node.front {
            Some(n) => traverse_ftb_node(&**n, eye, visitor),
            None => (),
        }
        proof {
            assert(visitor.seen() =~= s0 + (bkpart + node.spec_coplanar() + fpart));
        }
    } else {
        // Eye is in front or on the plane: the front subtree is nearer.
        match &node.front {
            Some(n) => traverse_ftb_node(&**n, eye, visitor),
            None => (),
        }
        proof {
            assert(visitor.seen() =~= s0 + fpart);
        }
        if coplanar.len() > 0 {
            visitor.visit(&coplanar);
        }
        proof {
            assert(visitor.seen() =~= s0 + fpart + node.spec_coplanar());
        }
        match &node.back {
            Some(n) => traverse_ftb_node(&**n, eye, visitor),
            None => (),
        }
        proof {
            assert(visitor.seen() =~= s0 + (fpart + node.spec_coplanar() + bkpart));
        }
    }
}

/// Traverses a subtree back-to-front.
fn traverse_btf_node<V: BspVisitor>(node: &BspNode, eye: &Point3, visitor: &mut V)
    requires
        node.wf(),
    ensures
        final(visitor).seen() == old(visitor).seen() + btf_view(*node, *eye),
    decreases *node,
{
    let side = node.plane.classify_point(eye);
    let coplanar = node.all_coplanar();
    let ghost s0 = visitor.seen();
    let ghost fpart: Seq<Seq<Point3>> = match &node.front {
        Some(b) => btf_view(**b, *eye),
        None => Seq::empty(),
    };
    let ghost bkpart: Seq<Seq<Point3>> = match &node.back {
        Some(b) => btf_view(**b, *eye),
        None => Seq::empty(),
    };
    if matches!(side, PlaneSide::Back) {
        // Eye is behind: the front subtree is farther.
        match &node.front {
            Some(n) => traverse_btf_node(&**n, eye, visitor),
            None => (),
        }
        proof {
            assert(visitor.seen() =~= s0 + fpart);
        }
        if coplanar.len() > 0 {
            visitor.visit(&coplanar);
        }
        proof {
            assert(visitor.seen() =~= s0 + fpart + node.spec_coplanar());
        }
        match &node.back {
            Some(n) => traverse_btf_node(&**n, eye, visitor),
            None => (),
        }
        proof {
            assert(visitor.seen() =~= s0 + (fpart + node.spec_coplanar() + bkpart));
        }
    } else {
        // Eye is in front or on the plane: the back subtree is farther.
        match &node.back {
            Some(n) => traverse_btf_node(&**n, eye, visitor),
            None => (),
        }
        proof {
            assert(visitor.seen() =~= s0 + bkpart);
        }
        if coplanar.len() > 0 {
            visitor.visit(&coplanar);
        }
        proof {
            assert(visitor.seen() =~= s0 + bkpart + node.spec_coplanar());
        }
        match &node.front {
            Some(n) => traverse_btf_node(&**n, eye, visitor),
            None => (),
        }
        proof {
            assert(visitor.seen() =~= s0 + (bkpart + node.spec_coplanar() + fpart));
        }
    }
}

/// Both traversal orders and the pre-order collection deliver every polygon
/// of the subtree exactly once: all three sequences have the subtree's
/// polygon count as length, and the traversals are permutations of the
/// collection.
pub proof fn lemma_orders_complete_node(node: BspNode, eye: Point3)
    ensures
        collect_view(node).len() == node.spec_count(),
        ftb_view(node, eye).len() == node.spec_count(),
        btf_view(node, eye).len() == node.spec_count(),
        ftb_view(node, eye).to_multiset() == collect_view(node).to_multiset(),
        btf_view(node, eye).to_multiset() == collect_view(node).to_multiset(),
    decreases node,
{
    let cop = node.spec_coplanar();
    let fc: Seq<Seq<Point3>> = match node.front {
        Some(b) => {
            lemma_orders_complete_node(*b, eye);
            collect_view(*b)
        },
        None => Seq::empty(),
    };
    let bc: Seq<Seq<Point3>> = match node.back {
        Some(b) => {
            lemma_orders_complete_node(*b, eye);
            collect_view(*b)
        },
        None => Seq::empty(),
    };
    let f: Seq<Seq<Point3>> = match node.front {
        Some(b) => ftb_view(*b, eye),
        None => Seq::empty(),
    };
    let bk: Seq<Seq<Point3>> = match node.back {
        Some(b) => ftb_view(*b, eye),
        None => Seq::empty(),
    };
    let f2: Seq<Seq<Point3>> = match node.front {
        Some(b) => btf_view(*b, eye),
        None => Seq::empty(),
    };
    let bk2: Seq<Seq<Point3>> = match node.back {
        Some(b) => btf_view(*b, eye),
        None => Seq::empty(),
    };
    assert(Seq::<Seq<Point3>>::empty().to_multiset() =~= Seq::<Seq<Point3>>::empty().to_multiset());
    vstd::seq_lib::lemma_multiset_commutative(cop, fc);
    vstd::seq_lib::lemma_multiset_commutative(cop + fc, bc);
    vstd::seq_lib::lemma_multiset_commutative(f, cop);
    vstd::seq_lib::lemma_multiset_commutative(f + cop, bk);
    vstd::seq_lib::lemma_multiset_commutative(bk, cop);
    vstd::seq_lib::lemma_multiset_commutative(bk + cop, f);
    vstd::seq_lib::lemma_multiset_commutative(f2, cop);
    vstd::seq_lib::lemma_multiset_commutative(f2 + cop, bk2);
    vstd::seq_lib::lemma_multiset_commutative(bk2, cop);
    vstd::seq_lib::lemma_multiset_commutative(bk2 + cop, f2);
    let fm = f.to_multiset();
    let bm = bk.to_multiset();
    let cm = cop.to_multiset();
    assert(fm.add(cm).add(bm) =~= cm.add(fm).add(bm));
    assert(bm.add(cm).add(fm) =~= cm.add(fm).add(bm));
    let fm2 = f2.to_multiset();
    let bm2 = bk2.to_multiset();
    assert(fm2.add(cm).add(bm2) =~= cm.add(fm2).add(bm2));
    assert(bm2.add(cm).add(fm2) =~= cm.add(fm2).add(bm2));
}

/// Recursively collects all polygons of a subtree into `result`.
fn collect_into(node: &BspNode, result: &mut Vec<Polygon>)
    requires
        node.wf(),
    ensures
        polys_view(final(result)@) == polys_view(old(result)@) + collect_view(*node),
    decreases *node,
{
    let mut coplanar = node.all_coplanar();
    let ghost pre = result@;
    let ghost cop_seq = coplanar@;
    result.append(&mut coplanar);
    proof {
        lemma_polys_view_concat(pre, cop_seq);
        assert(polys_view(result@) == polys_view(pre) + node.spec_coplanar());
    }
    let ghost fpart: Seq<Seq<Point3>> = match &node.front {
        Some(b) => collect_view(**b),
        None => Seq::empty(),
    };
    match &node.front {
        Some(n) => collect_into(&**n, result),
        None => (),
    }
    proof {
        assert(polys_view(result@) =~= polys_view(pre) + node.spec_coplanar() + fpart);
    }
    match &node.back {
        Some(n) => collect_into(&**n, result),
        None => (),
    }
    proof {
        assert(polys_view(result@) =~= polys_view(pre) + collect_view(*node));
    }
}

/// A binary space partitioning tree over 3D polygons.
///
/// A tree recursively partitions space with splitting planes; each node
/// stores the polygons coplanar with its plane, and the polygons strictly
/// in front or behind live in its two subtrees.  Built once from a polygon
/// list, it then yields the polygons in strict front-to-back or
/// back-to-front depth order for any eye position, without sorting.
#[derive(Debug)]
pub struct BspTree {
    pub root: Option<BspNode>,
}

impl BspTree {
    /// A well-formed tree: the root, if any, is well-formed.
    pub open spec fn wf(self) -> bool {
        match self.root {
            Some(n) => n.wf(),
            None => true,
        }
    }

    /// Number of polygons stored in the tree.
    pub open spec fn spec_count(self) -> int {
        match self.root {
            Some(n) => n.spec_count(),
            None => 0,
        }
    }

    /// Depth of the tree; zero when empty.
    pub open spec fn spec_depth(self) -> int {
        match self.root {
            Some(n) => n.spec_depth(),
            None => 0,
        }
    }

    /// Creates an empty BSP tree.
    pub fn new() -> (r: BspTree)
        ensures
            r.root is None,
            r.wf(),
    {
        BspTree { root: None }
    }

    /// Builds a BSP tree from a collection of polygons, using the given
    /// strategy to choose splitting planes.  Polygons that span a chosen
    /// plane are split.  Fails if a polygon chosen as a splitter has no
    /// usable plane.
    pub fn build<S: PlaneSelector>(polygons: Vec<Polygon>, selector: &S) -> (r: Result<
        BspTree,
        BuildError,
    >)
        requires
            all_wf(polygons@),
        ensures
            match r {
                Ok(t) => t.wf() && builds_to(selector, polys_view(polygons@), Ok(t.root)),
                Err(e) => builds_to(
                    selector,
                    polys_view(polygons@),
                    Err::<Option<BspNode>, BuildError>(e),
                ),
            },
    {
        match build_node(polygons, selector) {
            Ok(root) => Ok(BspTree { root }),
            Err(e) => Err(e),
        }
    }

    /// Builds a BSP tree using the default plane selector,
    /// [`FirstPolygon`].
    pub fn from_polygons(polygons: Vec<Polygon>) -> (r: Result<BspTree, BuildError>)
        requires
            all_wf(polygons@),
        ensures
            match r {
                Ok(t) => t.wf() && builds_to(&FirstPolygon, polys_view(polygons@), Ok(t.root)),
                Err(e) => builds_to(
                    &FirstPolygon,
                    polys_view(polygons@),
                    Err::<Option<BspNode>, BuildError>(e),
                ),
            },
    {
        BspTree::build(polygons, &FirstPolygon)
    }

    /// Returns `true` if the tree contains no polygons.
    pub fn is_empty(&self) -> (r: bool)
        ensures
            r == (self.root is None),
    {
        self.root.is_none()
    }

    /// Returns a reference to the root node, if any.
    pub fn root(&self) -> (r: Option<&BspNode>)
        ensures
            match (r, self.root) {
                (Some(n), Some(m)) => *n == m,
                (None, None) => true,
                _ => false,
            },
    {
        self.root.as_ref()
    }

    /// Returns the total number of polygons in the tree, saturating at
    /// `usize::MAX`.
    pub fn polygon_count(&self) -> (r: usize)
        ensures
            self.spec_count() <= usize::MAX ==> r == self.spec_count(),
            self.spec_count() > usize::MAX ==> r == usize::MAX,
    {
        match &self.root {
            Some(n) => n.polygon_count(),
            None => 0,
        }
    }

    /// Returns the maximum depth of the tree (0 for an empty tree),
    /// saturating at `usize::MAX`.
    pub fn depth(&self) -> (r: usize)
        ensures
            self.spec_depth() <= usize::MAX ==> r == self.spec_depth(),
            self.spec_depth() > usize::MAX ==> r == usize::MAX,
    {
        match &self.root {
            Some(n) => n.depth(),
            None => 0,
        }
    }

    /// Traverses the tree front-to-back relative to the eye position: at
    /// every node the subtree on the eye's side of the splitting plane is
    /// delivered before the node's coplanar polygons, which come before the
    /// far subtree.  The visitor receives each node's non-empty coplanar
    /// group once, in that order.
    pub fn traverse_front_to_back<V: BspVisitor>(&self, eye: Point3, visitor: &mut V)
        requires
            self.wf(),
        ensures
            final(visitor).seen() == old(visitor).seen() + self.spec_front_to_back(eye),
    {
        match &self.root {
            Some(n) => traverse_ftb_node(n, &eye, visitor),
            None => {
                proof {
                    assert(old(visitor).seen() =~= old(visitor).seen() + self.spec_front_to_back(
                        eye,
                    ));
                }
            },
        }
    }

    /// Traverses the tree back-to-front relative to the eye position: the
    /// exact mirror of front-to-back order.
    pub fn traverse_back_to_front<V: BspVisitor>(&self, eye: Point3, visitor: &mut V)
        requires
            self.wf(),
        ensures
            final(visitor).seen() == old(visitor).seen() + self.spec_back_to_front(eye),
    {
        match &self.root {
            Some(n) => traverse_btf_node(n, &eye, visitor),
            None => {
                proof {
                    assert(old(visitor).seen() =~= old(visitor).seen() + self.spec_back_to_front(
                        eye,
                    ));
                }
            },
        }
    }

    /// The vertex views a front-to-back traversal delivers, in order.
    pub open spec fn spec_front_to_back(self, eye: Point3) -> Seq<Seq<Point3>> {
        match self.root {
            Some(n) => ftb_view(n, eye),
            None => Seq::empty(),
        }
    }

    /// The vertex views a back-to-front traversal delivers, in order.
    pub open spec fn spec_back_to_front(self, eye: Point3) -> Seq<Seq<Point3>> {
        match self.root {
            Some(n) => btf_view(n, eye),
            None => Seq::empty(),
        }
    }

    /// The vertex views of all polygons in the tree, in pre-order.
    pub open spec fn spec_collect(self) -> Seq<Seq<Point3>> {
        match self.root {
            Some(n) => collect_view(n),
            None => Seq::empty(),
        }
    }

    /// Collects all polygons in the tree into a vector, in pre-order
    /// (coplanar, then front subtree, then back subtree at each node); no
    /// depth ordering is implied.
    pub fn collect_polygons(&self) -> (r: Vec<Polygon>)
        requires
            self.wf(),
        ensures
            polys_view(r@) == self.spec_collect(),
    {
        let mut result: Vec<Polygon> = Vec::new();
        match &self.root {
            Some(n) => collect_into(n, &mut result),
            None => (),
        }
        proof {
            assert(polys_view(result@) =~= self.spec_collect());
        }
        result
    }
}

/// Both traversals deliver every polygon of the tree exactly once, for any
/// eye position: they are permutations of the collected polygon list, and
/// their length is the tree's polygon count.
pub proof fn lemma_traversals_deliver_all(tree: BspTree, eye: Point3)
    ensures
        tree.spec_front_to_back(eye).to_multiset() == tree.spec_collect().to_multiset(),
        tree.spec_back_to_front(eye).to_multiset() == tree.spec_collect().to_multiset(),
        tree.spec_front_to_back(eye).len() == tree.spec_count(),
        tree.spec_back_to_front(eye).len() == tree.spec_count(),
        tree.spec_collect().len() == tree.spec_count(),
{
    match tree.root {
        Some(n) => lemma_orders_complete_node(n, eye),
        None => (),
    }
}

impl Default for BspTree {
    /// The default tree is empty.
    fn default() -> (r: BspTree)
        ensures
            r.root is None,
            r.wf(),
    {
        BspTree::new()
    }
}

} // verus!
