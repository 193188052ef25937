//! A binary-space-partition (BSP) tree over convex polygons in 3D.
//!
//! Geometry is carried on an integer grid: every coordinate is an `i64`
//! grid unit, and all derived quantities (normals, offsets, signed
//! distances) are computed exactly in wide integer arithmetic.  The
//! classification tolerance is expressed in grid units: a point counts as
//! lying on a plane when its signed distance is at most `epsilon` times
//! the 1-norm of the plane's normal, which makes the tolerance a geometric
//! distance of roughly `epsilon` grid units regardless of how large the
//! (unnormalized) normal is.

pub mod cuttable;
pub mod geom;
pub mod node;
pub mod plane;
pub mod polygon;
pub mod rectangle;
pub mod selector;
pub mod tree;
pub mod triangle;
pub mod visitor;

pub use cuttable::Cuttable;
pub use geom::{Point3, Vector3, COORD_LIMIT, EPSILON_LIMIT, NORMAL_LIMIT, OFFSET_LIMIT};
pub use node::{faces_same_direction, BspNode};
pub use plane::{Classification, Plane3D, PlaneSide, PLANE_EPSILON};
pub use polygon::Polygon;
pub use rectangle::{Rectangle, RectangleClassification};
pub use selector::{FirstPolygon, PlaneSelector};
pub use triangle::Triangle;
pub use tree::{BspTree, BuildError};
pub use visitor::{BspVisitor, CollectingVisitor};
