//! Visitor pattern for BSP tree traversal.
//!
//! Visitors allow custom processing of polygons during tree traversal
//! without coupling the traversal logic to a specific use.  A visitor
//! carries a ghost log `seen()` of the vertex views of every polygon it has
//! been handed, so that a traversal can state exactly which polygons it
//! delivers, and in which order.

use crate::geom::Point3;
use crate::polygon::{polys_view, Polygon};
use vstd::prelude::*;

verus! {

/// Visitor for processing groups of polygons during BSP tree traversal.
pub trait BspVisitor {
    /// The vertex views of all polygons this visitor has been handed, in
    /// order.
    spec fn seen(&self) -> Seq<Seq<Point3>>;

    /// Called for each non-empty group of mutually coplanar polygons
    /// during traversal.  The group's views are appended to `seen()`.
    fn visit(&mut self, polygons: &Vec<Polygon>)
        ensures
            final(self).seen() == old(self).seen() + polys_view(polygons@),
    ;
}

/// A visitor that collects every polygon it is handed, in visit order.
#[derive(Debug)]
pub struct CollectingVisitor {
    pub collected: Vec<Polygon>,
}

impl CollectingVisitor {
    /// Creates a new empty collecting visitor.
    pub fn new() -> (r: CollectingVisitor)
        ensures
            r.seen() == Seq::<Seq<Point3>>::empty(),
    {
        let r = CollectingVisitor { collected: Vec::new() };
        proof {
            assert(r.seen() =~= Seq::<Seq<Point3>>::empty());
        }
        r
    }

    /// Returns the collected polygons.
    pub fn into_polygons(self) -> (r: Vec<Polygon>)
        ensures
            polys_view(r@) == self.seen(),
    {
        self.collected
    }

    /// Returns a reference to the collected polygons.
    pub fn polygons(&self) -> (r: &Vec<Polygon>)
        ensures
            polys_view(r@) == self.seen(),
    {
        &self.collected
    }
}

impl BspVisitor for CollectingVisitor {
    open spec fn seen(&self) -> Seq<Seq<Point3>> {
        polys_view(self.collected@)
    }

    fn visit(&mut self, polygons: &Vec<Polygon>) {
        let n = polygons.len();
        let mut i: usize = 0;
        while i < n
            invariant
                0 <= i <= n,
                n == polygons@.len(),
                polys_view(self.collected@) =~= polys_view(old(self).collected@) + polys_view(
                    polygons@.subrange(0, i as int),
                ),
            decreases n - i,
        {
            let ghost pre = self.collected@;
            let p = polygons[i].clone();
            let ghost pv = p@;
            self.collected.push(p);
            proof {
                crate::polygon::lemma_polys_view_push(pre, self.collected@.last());
                crate::polygon::lemma_polys_view_prefix(polygons@, i as int);
                assert(self.collected@.last()@ == pv);
                assert(polys_view(self.collected@) =~= polys_view(old(self).collected@)
                    + polys_view(polygons@.subrange(0, i + 1 as int)));
            }
            i = i + 1;
        }
        proof {
            assert(polygons@.subrange(0, n as int) =~= polygons@);
            assert(polys_view(self.collected@) =~= polys_view(old(self).collected@) + polys_view(
                polygons@,
            ));
        }
    }
}

impl Default for CollectingVisitor {
    /// The default collecting visitor has seen nothing.
    fn default() -> (r: CollectingVisitor)
        ensures
            r.seen() == Seq::<Seq<Point3>>::empty(),
    {
        CollectingVisitor::new()
    }
}

} // verus!
