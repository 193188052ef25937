//! BSP tree nodes.

use crate::geom::Point3;
use crate::plane::{tri_nx, tri_ny, tri_nz, Plane3D};
use crate::polygon::{all_wf, polys_view, Polygon};
use vstd::prelude::*;

verus! {

/// A node in the BSP tree.
///
/// Each node partitions space with a splitting plane and stores the
/// polygons coplanar with that plane, separated by facing direction:
/// `coplanar_front` holds those whose own normal points the same way as the
/// plane normal, `coplanar_back` the others.  Polygons strictly in front or
/// behind live in the respective child subtrees.
#[derive(Debug)]
pub struct BspNode {
    /// The splitting plane for this node.
    pub plane: Plane3D,
    /// Coplanar polygons facing the same direction as the plane normal.
    pub coplanar_front: Vec<Polygon>,
    /// Coplanar polygons facing opposite to the plane normal.
    pub coplanar_back: Vec<Polygon>,
    /// Subtree of polygons in front of the splitting plane.
    pub front: Option<Box<BspNode>>,
    /// Subtree of polygons behind the splitting plane.
    pub back: Option<Box<BspNode>>,
}

impl BspNode {
    /// A well-formed node: usable plane, well-formed polygons, well-formed
    /// children.
    pub open spec fn wf(self) -> bool
        decreases self,
    {
        &&& self.plane.wf()
        &&& all_wf(self.coplanar_front@)
        &&& all_wf(self.coplanar_back@)
        &&& (match self.front {
            Some(n) => n.wf(),
            None => true,
        })
        &&& (match self.back {
            Some(n) => n.wf(),
            None => true,
        })
    }

    /// Number of polygons stored in this subtree.
    pub open spec fn spec_count(self) -> int
        decreases self,
    {
        self.coplanar_front@.len() + self.coplanar_back@.len() + (match self.front {
            Some(n) => n.spec_count(),
            None => 0,
        }) + (match self.back {
            Some(n) => n.spec_count(),
            None => 0,
        })
    }

    /// Depth of this subtree: one for a leaf.
    pub open spec fn spec_depth(self) -> int
        decreases self,
    {
        let fd = match self.front {
            Some(n) => n.spec_depth(),
            None => 0,
        };
        let bd = match self.back {
            Some(n) => n.spec_depth(),
            None => 0,
        };
        1 + if fd >= bd {
            fd
        } else {
            bd
        }
    }

    /// The vertex lists of this node's coplanar polygons, front-facing
    /// first.
    pub open spec fn spec_coplanar(self) -> Seq<Seq<Point3>> {
        polys_view(self.coplanar_front@) + polys_view(self.coplanar_back@)
    }

    /// Creates a new leaf node with the given splitting plane and no
    /// polygons.
    pub fn new(plane: Plane3D) -> (r: BspNode)
        requires
            plane.wf(),
        ensures
            r.plane == plane,
            r.coplanar_front@.len() == 0,
            r.coplanar_back@.len() == 0,
            r.front is None,
            r.back is None,
            r.wf(),
    {
        BspNode {
            plane,
            coplanar_front: Vec::new(),
            coplanar_back: Vec::new(),
            front: None,
            back: None,
        }
    }

    /// Creates a new leaf node with a splitting plane and initial coplanar
    /// polygons.
    pub fn with_coplanar(
        plane: Plane3D,
        coplanar_front: Vec<Polygon>,
        coplanar_back: Vec<Polygon>,
    ) -> (r: BspNode)
        requires
            plane.wf(),
            all_wf(coplanar_front@),
            all_wf(coplanar_back@),
        ensures
            r.plane == plane,
            r.coplanar_front@ == coplanar_front@,
            r.coplanar_back@ == coplanar_back@,
            r.front is None,
            r.back is None,
            r.wf(),
    {
        BspNode { plane, coplanar_front, coplanar_back, front: None, back: None }
    }

    /// Returns the splitting plane.
    pub fn plane(&self) -> (r: &Plane3D)
        ensures
            r == self.plane,
    {
        &self.plane
    }

    /// Returns the coplanar polygons facing with the plane normal.
    pub fn coplanar_front(&self) -> (r: &Vec<Polygon>)
        ensures
            r@ == self.coplanar_front@,
    {
        &self.coplanar_front
    }

    /// Returns the coplanar polygons facing against the plane normal.
    pub fn coplanar_back(&self) -> (r: &Vec<Polygon>)
        ensures
            r@ == self.coplanar_back@,
    {
        &self.coplanar_back
    }

    /// Returns all coplanar polygons at this node, front-facing first.
    pub fn all_coplanar(&self) -> (r: Vec<Polygon>)
        ensures
            polys_view(r@) == self.spec_coplanar(),
    {
        let mut out: Vec<Polygon> = Vec::new();
        let nf = self.coplanar_front.len();
        let mut i: usize = 0;
        while i < nf
            invariant
                0 <= i <= nf,
                nf == self.coplanar_front@.len(),
                polys_view(out@) =~= polys_view(self.coplanar_front@.subrange(0, i as int)),
            decreases nf - i,
        {
            let ghost pre = out@;
            let p = self.coplanar_front[i].clone();
            let ghost pv = p@;
            out.push(p);
            proof {
                crate::polygon::lemma_polys_view_push(pre, out@.last());
                crate::polygon::lemma_polys_view_prefix(self.coplanar_front@, i as int);
                assert(out@.last()@ == pv);
                assert(polys_view(out@) =~= polys_view(
                    self.coplanar_front@.subrange(0, i + 1 as int),
                ));
            }
            i = i + 1;
        }
        let nb = self.coplanar_back.len();
        let mut j: usize = 0;
        while j < nb
            invariant
                0 <= j <= nb,
                nb == self.coplanar_back@.len(),
                polys_view(out@) =~= polys_view(self.coplanar_front@) + polys_view(
                    self.coplanar_back@.subrange(0, j as int),
                ),
            decreases nb - j,
        {
            let ghost pre = out@;
            let p = self.coplanar_back[j].clone();
            let ghost pv = p@;
            out.push(p);
            proof {
                crate::polygon::lemma_polys_view_push(pre, out@.last());
                crate::polygon::lemma_polys_view_prefix(self.coplanar_back@, j as int);
                assert(out@.last()@ == pv);
                assert(polys_view(out@) =~= polys_view(self.coplanar_front@) + polys_view(
                    self.coplanar_back@.subrange(0, j + 1 as int),
                ));
            }
            j = j + 1;
        }
        proof {
            assert(self.coplanar_front@.subrange(0, self.coplanar_front@.len() as int)
                =~= self.coplanar_front@);
            assert(self.coplanar_back@.subrange(0, self.coplanar_back@.len() as int)
                =~= self.coplanar_back@);
            assert(polys_view(out@) =~= self.spec_coplanar());
        }
        out
    }

    /// Returns the number of coplanar polygons at this node, saturating at
    /// `usize::MAX`.
    pub fn coplanar_count(&self) -> (r: usize)
        ensures
            self.coplanar_front@.len() + self.coplanar_back@.len() <= usize::MAX ==> r
                == self.coplanar_front@.len() + self.coplanar_back@.len(),
            self.coplanar_front@.len() + self.coplanar_back@.len() > usize::MAX ==> r
                == usize::MAX,
    {
        self.coplanar_front.len().saturating_add(self.coplanar_back.len())
    }

    /// Returns a reference to the front child subtree.
    pub fn front(&self) -> (r: Option<&BspNode>)
        ensures
            match (r, self.front) {
                (Some(n), Some(b)) => *n == *b,
                (None, None) => true,
                _ => false,
            },
    {
        match &self.front {
            Some(n) => Some(&**n),
            None => None,
        }
    }

    /// Returns a reference to the back child subtree.
    pub fn back(&self) -> (r: Option<&BspNode>)
        ensures
            match (r, self.back) {
                (Some(n), Some(b)) => *n == *b,
                (None, None) => true,
                _ => false,
            },
    {
        match &self.back {
            Some(n) => Some(&**n),
            None => None,
        }
    }

    /// Sets the front child subtree.
    pub fn set_front(&mut self, node: Option<BspNode>)
        ensures
            final(self).plane == old(self).plane,
            final(self).coplanar_front@ == old(self).coplanar_front@,
            final(self).coplanar_back@ == old(self).coplanar_back@,
            final(self).back == old(self).back,
            match (final(self).front, node) {
                (Some(b), Some(n)) => *b == n,
                (None, None) => true,
                _ => false,
            },
    {
        self.front = match node {
            Some(n) => Some(Box::new(n)),
            None => None,
        };
    }

    /// Sets the back child subtree.
    pub fn set_back(&mut self, node: Option<BspNode>)
        ensures
            final(self).plane == old(self).plane,
            final(self).coplanar_front@ == old(self).coplanar_front@,
            final(self).coplanar_back@ == old(self).coplanar_back@,
            final(self).front == old(self).front,
            match (final(self).back, node) {
                (Some(b), Some(n)) => *b == n,
                (None, None) => true,
                _ => false,
            },
    {
        self.back = match node {
            Some(n) => Some(Box::new(n)),
            None => None,
        };
    }

    /// Adds a polygon to the coplanar front list.
    pub fn add_coplanar_front(&mut self, polygon: Polygon)
        ensures
            final(self).plane == old(self).plane,
            final(self).coplanar_front@ == old(self).coplanar_front@.push(polygon),
            final(self).coplanar_back@ == old(self).coplanar_back@,
            final(self).front == old(self).front,
            final(self).back == old(self).back,
    {
        self.coplanar_front.push(polygon);
    }

    /// Adds a polygon to the coplanar back list.
    pub fn add_coplanar_back(&mut self, polygon: Polygon)
        ensures
            final(self).plane == old(self).plane,
            final(self).coplanar_front@ == old(self).coplanar_front@,
            final(self).coplanar_back@ == old(self).coplanar_back@.push(polygon),
            final(self).front == old(self).front,
            final(self).back == old(self).back,
    {
        self.coplanar_back.push(polygon);
    }

    /// Checks if this node has no children.
    pub fn is_leaf(&self) -> (r: bool)
        ensures
            r == (self.front is None && self.back is None),
    {
        self.front.is_none() && self.back.is_none()
    }

    /// Returns the total number of polygons in this subtree, saturating at
    /// `usize::MAX` (which no buildable tree reaches).
    pub fn polygon_count(&self) -> (r: usize)
        ensures
            self.spec_count() <= usize::MAX ==> r == self.spec_count(),
            self.spec_count() > usize::MAX ==> r == usize::MAX,
        decreases *self,
    {
        let own = self.coplanar_front.len().saturating_add(self.coplanar_back.len());
        let with_front = match &self.front {
            Some(n) => own.saturating_add(n.polygon_count()),
            None => own,
        };
        match &self.back {
            Some(n) => with_front.saturating_add(n.polygon_count()),
            None => with_front,
        }
    }

    /// Returns the depth of this subtree (1 for a leaf), saturating at
    /// `usize::MAX`.
    pub fn depth(&self) -> (r: usize)
        ensures
            self.spec_depth() <= usize::MAX ==> r == self.spec_depth(),
            self.spec_depth() > usize::MAX ==> r == usize::MAX,
        decreases *self,
    {
        let front_depth = match &self.front {
            Some(n) => n.depth(),
            None => 0,
        };
        let back_depth = match &self.back {
            Some(n) => n.depth(),
            None => 0,
        };
        let deeper = if front_depth >= back_depth {
            front_depth
        } else {
            back_depth
        };
        deeper.saturating_add(1)
    }
}

/// What [`faces_same_direction`] decides: the dot product of the shape's
/// own right-hand-rule normal with the plane normal is positive.
pub open spec fn spec_faces_same_direction(vs: Seq<Point3>, plane: Plane3D) -> bool
    recommends
        vs.len() >= 3,
{
    tri_nx(vs[0], vs[1], vs[2]) * plane.normal.x + tri_ny(vs[0], vs[1], vs[2]) * plane.normal.y
        + tri_nz(vs[0], vs[1], vs[2]) * plane.normal.z > 0
}

/// Determines whether a polygon faces the same direction as a plane, by the
/// sign of the dot product of the two normals.  A degenerate polygon (zero
/// normal) has a zero dot product and counts as facing the opposite way.
pub fn faces_same_direction(polygon: &Polygon, plane: &Plane3D) -> (r: bool)
    requires
        polygon.wf(),
        plane.wf(),
    ensures
        r == spec_faces_same_direction(polygon@, *plane),
{
    let pn = polygon.normal();
    let d = crate::geom::dot_vector(&pn, &plane.normal);
    d > 0
}

} // verus!
