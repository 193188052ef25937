//! Plane selection strategies for BSP tree construction.
//!
//! The choice of splitting plane affects tree balance and the number of
//! polygon splits during construction; the strategy is pluggable so that
//! other selectors can be substituted without changing the builder.

use crate::geom::Point3;
use crate::polygon::{polys_view, Polygon};
use vstd::prelude::*;

verus! {

/// Strategy for selecting which polygon's plane becomes the next splitting
/// plane.  A strategy is a pure choice function over the vertex views of
/// the candidate list: `spec_select` names the chosen index, and `select`
/// returns it, or `None` exactly on an empty list.
pub trait PlaneSelector {
    /// The index this strategy picks from a non-empty candidate list.
    spec fn spec_select(&self, polygons: Seq<Seq<Point3>>) -> int;

    /// Selects a polygon from the list to use as the splitting plane.
    /// Returns `None` exactly when the list is empty; otherwise the
    /// returned index is in range and is the strategy's choice.
    fn select(&self, polygons: &Vec<Polygon>) -> (r: Option<usize>)
        ensures
            match r {
                Some(i) => polygons@.len() > 0 && i < polygons@.len() && i == self.spec_select(
                    polys_view(polygons@),
                ),
                None => polygons@.len() == 0,
            },
    ;
}

/// Selects the first polygon in the list: the simplest and fastest
/// strategy, though the tree shape then depends on input order.
#[derive(Debug, Clone, Copy, Default)]
pub struct FirstPolygon;

impl PlaneSelector for FirstPolygon {
    open spec fn spec_select(&self, polygons: Seq<Seq<Point3>>) -> int {
        0
    }

    fn select(&self, polygons: &Vec<Polygon>) -> (r: Option<usize>) {
        if polygons.len() == 0 {
            None
        } else {
            Some(0)
        }
    }
}

} // verus!
