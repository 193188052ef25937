//! Planes, classification, and the shape primitives.

use bsp_tree::{
    Classification, Plane3D, PlaneSide, Point3, Polygon, Rectangle, RectangleClassification,
    Triangle, Vector3,
};

fn p(x: i64, y: i64, z: i64) -> Point3 {
    Point3::new(x, y, z)
}

#[test]
fn point_on_defining_point_has_zero_distance() {
    // A plane built from a point and a normal passes exactly through that
    // point: signed distance zero, classified on-plane.
    let point = p(123, -456, 789);
    let normal = Vector3::new(3, -5, 7);
    let plane = Plane3D::from_point_and_normal(&point, &normal);

    assert_eq!(plane.signed_distance(&point), 0);
    assert_eq!(plane.classify_point(&point), PlaneSide::OnPlane);
}

#[test]
fn signed_distance_exact_values() {
    // Plane y = 100 with normal (0, 2, 0): distances scale with the normal.
    let plane = Plane3D::new(Vector3::new(0, 2, 0), 200);
    assert_eq!(plane.signed_distance(&p(5, 150, -3)), 100);
    assert_eq!(plane.signed_distance(&p(5, 50, -3)), -100);
    assert_eq!(plane.signed_distance(&p(0, 100, 0)), 0);
}

#[test]
fn classify_point_three_ways() {
    let plane = Plane3D::new(Vector3::new(0, 1, 0), 0);
    assert_eq!(plane.classify_point(&p(0, 10, 0)), PlaneSide::Front);
    assert_eq!(plane.classify_point(&p(0, -10, 0)), PlaneSide::Back);
    assert_eq!(plane.classify_point(&p(7, 0, -4)), PlaneSide::OnPlane);
    // Within one grid unit of the plane still counts as on-plane.
    assert_eq!(plane.classify_point(&p(0, 1, 0)), PlaneSide::OnPlane);
    assert_eq!(plane.classify_point(&p(0, 2, 0)), PlaneSide::Front);
}

#[test]
fn classify_point_with_custom_epsilon() {
    let plane = Plane3D::new(Vector3::new(0, 1, 0), 0);
    assert_eq!(plane.classify_point_with_epsilon(&p(0, 5, 0), 10), PlaneSide::OnPlane);
    assert_eq!(plane.classify_point_with_epsilon(&p(0, 5, 0), 4), PlaneSide::Front);
    assert_eq!(plane.classify_point_with_epsilon(&p(0, -5, 0), 4), PlaneSide::Back);
    assert_eq!(plane.classify_point_with_epsilon(&p(0, -5, 0), 0), PlaneSide::Back);
}

#[test]
fn flipped_swaps_front_and_back() {
    // Strictly front becomes strictly back and vice versa; on-plane points
    // stay on-plane.
    let plane = Plane3D::new(Vector3::new(1, 2, -2), -50);
    let flipped = plane.flipped();

    let front_point = p(100, 200, -300);
    let back_point = p(-100, -200, 300);
    let on_point = p(-50, 0, 0);
    assert_eq!(plane.classify_point(&front_point), PlaneSide::Front);
    assert_eq!(plane.classify_point(&back_point), PlaneSide::Back);
    assert_eq!(plane.classify_point(&on_point), PlaneSide::OnPlane);

    assert_eq!(flipped.classify_point(&front_point), PlaneSide::Back);
    assert_eq!(flipped.classify_point(&back_point), PlaneSide::Front);
    assert_eq!(flipped.classify_point(&on_point), PlaneSide::OnPlane);
}

#[test]
fn classify_twice_gives_same_result() {
    // Classification has no hidden state: the same shape/plane pair always
    // classifies the same way.
    let polygon = Polygon::new(vec![p(0, 100, 0), p(100, -100, 0), p(-100, -100, 0)]);
    let plane = Plane3D::new(Vector3::new(0, 1, 0), 0);
    let c1 = polygon.classify(&plane);
    let c2 = polygon.classify(&plane);
    assert_eq!(c1, c2);
    assert_eq!(c1, Classification::Spanning);
}

#[test]
fn from_three_points_follows_right_hand_rule() {
    let plane = Plane3D::from_three_points(&p(0, 0, 0), &p(100, 0, 0), &p(0, 100, 0));
    assert_eq!(plane.normal(), Vector3::new(0, 0, 10000));
    assert_eq!(plane.offset(), 0);
}

#[test]
fn intersect_segment_midpoint() {
    let plane = Plane3D::new(Vector3::new(0, 1, 0), 0);
    let hit = plane.intersect_segment(&p(0, -100, 0), &p(50, 100, 0));
    let (num, den, point) = hit.unwrap();
    assert_eq!(num, 100);
    assert_eq!(den, 200);
    assert_eq!(point, p(25, 0, 0));
}

#[test]
fn intersect_segment_parallel_is_none() {
    let plane = Plane3D::new(Vector3::new(0, 1, 0), 0);
    assert!(plane.intersect_segment(&p(0, 50, 0), &p(100, 50, 0)).is_none());
}

#[test]
fn intersect_segment_outside_range_is_none() {
    let plane = Plane3D::new(Vector3::new(0, 1, 0), 0);
    // Both endpoints above the plane: the infinite line meets it outside
    // the segment.
    assert!(plane.intersect_segment(&p(0, 100, 0), &p(0, 50, 0)).is_none());
}

#[test]
fn intersect_segment_at_endpoint() {
    let plane = Plane3D::new(Vector3::new(0, 1, 0), 0);
    let hit = plane.intersect_segment(&p(0, 0, 0), &p(0, 100, 0));
    let (num, den, point) = hit.unwrap();
    assert_eq!(num, 0);
    assert_eq!(den, 100);
    assert_eq!(point, p(0, 0, 0));
}

#[test]
fn project_point_onto_axis_plane() {
    let plane = Plane3D::new(Vector3::new(0, 1, 0), 0);
    assert_eq!(plane.project_point(&p(30, 70, -10)), p(30, 0, -10));
    assert_eq!(plane.project_point(&p(30, -70, -10)), p(30, 0, -10));
}

#[test]
fn polygon_accessors() {
    let polygon = Polygon::new(vec![p(0, 0, 0), p(100, 0, 0), p(0, 100, 0)]);
    assert_eq!(polygon.len(), 3);
    assert!(!polygon.is_empty());
    assert_eq!(polygon.vertices().len(), 3);
}

#[test]
fn polygon_normal_and_plane() {
    let polygon = Polygon::new(vec![p(0, 0, 0), p(100, 0, 0), p(0, 100, 0)]);
    assert_eq!(polygon.normal(), Vector3::new(0, 0, 10000));
    assert!(!polygon.degenerate());
    let plane = polygon.plane();
    assert_eq!(plane.normal(), Vector3::new(0, 0, 10000));
    assert_eq!(plane.offset(), 0);
}

#[test]
fn polygon_centroid_truncates_toward_zero() {
    let polygon = Polygon::new(vec![p(0, 0, 0), p(100, 0, 0), p(0, 101, 0)]);
    // x: 100/3 -> 33; y: 101/3 -> 33.
    assert_eq!(polygon.centroid(), p(33, 33, 0));
    let negated = Polygon::new(vec![p(0, 0, 0), p(-100, 0, 0), p(0, -101, 0)]);
    assert_eq!(negated.centroid(), p(-33, -33, 0));
}

#[test]
fn polygon_coplanarity_check() {
    let flat = vec![p(0, 0, 0), p(100, 0, 0), p(100, 100, 0), p(0, 100, 0)];
    assert!(Polygon::are_coplanar(&flat));
    let bent = vec![p(0, 0, 0), p(100, 0, 0), p(100, 100, 0), p(0, 100, 50)];
    assert!(!Polygon::are_coplanar(&bent));
}

#[test]
fn triangle_accessors_and_centroid() {
    let t = Triangle::new(p(0, 0, 0), p(90, 0, 0), p(0, 91, 0));
    assert_eq!(t.vertices()[1], p(90, 0, 0));
    assert_eq!(t.normal(), Vector3::new(0, 0, 8190));
    assert_eq!(t.centroid(), p(30, 30, 0));
    assert!(!t.degenerate());
    assert_eq!(t.plane().normal(), Vector3::new(0, 0, 8190));
}

#[test]
fn triangle_classify_matches_polygon() {
    let t = Triangle::new(p(0, 100, 0), p(100, 100, 0), p(50, 200, 0));
    let plane = Plane3D::new(Vector3::new(0, 1, 0), 0);
    assert_eq!(t.classify(&plane), Classification::Front);
    assert_eq!(t.to_polygon().classify(&plane), Classification::Front);
}

#[test]
fn rectangle_vertices_in_winding_order() {
    let r = Rectangle::new(p(10, 20, 30), Vector3::new(100, 0, 0), Vector3::new(0, 200, 0));
    let vs = r.vertices();
    assert_eq!(vs[0], p(10, 20, 30));
    assert_eq!(vs[1], p(110, 20, 30));
    assert_eq!(vs[2], p(110, 220, 30));
    assert_eq!(vs[3], p(10, 220, 30));
    assert_eq!(r.origin(), p(10, 20, 30));
    assert_eq!(r.u(), Vector3::new(100, 0, 0));
    assert_eq!(r.v(), Vector3::new(0, 200, 0));
}

#[test]
fn rectangle_from_corners() {
    let r = Rectangle::from_corners(p(0, 0, 0), p(100, 0, 0), p(100, 50, 0), p(0, 50, 0));
    assert_eq!(r.origin(), p(0, 0, 0));
    assert_eq!(r.u(), Vector3::new(100, 0, 0));
    assert_eq!(r.v(), Vector3::new(0, 50, 0));
}

#[test]
fn rectangle_normal_centroid_area() {
    let r = Rectangle::new(p(0, 0, 0), Vector3::new(100, 0, 0), Vector3::new(0, 50, 0));
    assert_eq!(r.normal(), Vector3::new(0, 0, 5000));
    assert_eq!(r.centroid(), p(50, 25, 0));
    // Area 100 * 50 = 5000; its square is 25_000_000.
    assert_eq!(r.area_squared(), 25_000_000);
    assert_eq!(r.plane().normal(), Vector3::new(0, 0, 5000));
}

#[test]
fn rectangle_classify_spanning() {
    let r = Rectangle::new(p(0, -100, 0), Vector3::new(100, 0, 0), Vector3::new(0, 200, 0));
    let plane = Plane3D::new(Vector3::new(0, 1, 0), 0);
    assert_eq!(r.classify(&plane), RectangleClassification::Spanning);
    let above = Rectangle::new(p(0, 100, 0), Vector3::new(100, 0, 0), Vector3::new(0, 200, 0));
    assert_eq!(above.classify(&plane), RectangleClassification::Front);
}

#[test]
fn polygon_equality_is_by_vertices() {
    let a = Polygon::new(vec![p(0, 0, 0), p(100, 0, 0), p(0, 100, 0)]);
    let b = Polygon::new(vec![p(0, 0, 0), p(100, 0, 0), p(0, 100, 0)]);
    let c = Polygon::new(vec![p(0, 0, 0), p(100, 0, 0), p(0, 100, 1)]);
    assert_eq!(a, b);
    assert_ne!(a, c);
    assert_eq!(a.clone(), a);
}
