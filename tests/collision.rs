use rsfx::aabb::AABB;
use rsfx::face::{CollisionResult, Face, RayHit};
use rsfx::geometry::Point3;
use rsfx::static_world::{NodeSize, StaticWorld, WorldError};

fn p(x: i64, y: i64, z: i64) -> Point3 {
    Point3::new(x, y, z)
}

fn hit_of(r: CollisionResult) -> RayHit {
    match r {
        CollisionResult::Collides(h) => h,
        CollisionResult::Nothing => panic!("expected a hit"),
    }
}

fn assert_hit_at(r: CollisionResult, x: i128, y: i128, z: i128) {
    let h = hit_of(r);
    assert!(h.denom > 0);
    assert_eq!(h.x, x * h.denom);
    assert_eq!(h.y, y * h.denom);
    assert_eq!(h.z, z * h.denom);
}

fn triangle(a: Point3, b: Point3, c: Point3) -> Vec<Point3> {
    vec![a, b, c]
}

#[test]
fn in_bounds_is_inclusive_on_every_axis() {
    let b = AABB::new(p(0, 0, 0), p(10, 20, 30));
    assert!(b.in_bounds(p(0, 0, 0)));
    assert!(b.in_bounds(p(10, 20, 30)));
    assert!(b.in_bounds(p(5, 5, 5)));
    assert!(!b.in_bounds(p(11, 5, 5)));
    assert!(!b.in_bounds(p(5, -1, 5)));
    assert!(!b.in_bounds(p(5, 5, 31)));
}

#[test]
fn intersects_is_symmetric_and_counts_touching() {
    let a = AABB::new(p(0, 0, 0), p(10, 10, 10));
    let b = AABB::new(p(10, 10, 10), p(20, 20, 20));
    let c = AABB::new(p(11, 0, 0), p(20, 10, 10));
    assert!(a.intersects(&b));
    assert!(b.intersects(&a));
    assert!(!a.intersects(&c));
    assert!(!c.intersects(&a));
}

#[test]
fn corners_vary_x_slowest() {
    let b = AABB::new(p(0, 1, 2), p(10, 11, 12));
    let c = b.get_corners();
    assert_eq!(c.len(), 8);
    assert_eq!(c[0], p(0, 1, 2));
    assert_eq!(c[1], p(0, 1, 12));
    assert_eq!(c[2], p(0, 11, 2));
    assert_eq!(c[3], p(0, 11, 12));
    assert_eq!(c[4], p(10, 1, 2));
    assert_eq!(c[7], p(10, 11, 12));
}

#[test]
fn ray_intersect_slab_cases() {
    let b = AABB::new(p(0, 0, 0), p(10, 10, 10));
    // straight down through the box
    assert!(b.ray_intersect(&p(5, 5, 20), &p(0, 0, -1), 30));
    // too short to reach it
    assert!(!b.ray_intersect(&p(5, 5, 20), &p(0, 0, -1), 9));
    // just reaches the top face
    assert!(b.ray_intersect(&p(5, 5, 20), &p(0, 0, -1), 10));
    // pointing away
    assert!(!b.ray_intersect(&p(5, 5, 20), &p(0, 0, 1), 30));
    // parallel to a slab it does not lie in
    assert!(!b.ray_intersect(&p(15, 5, 20), &p(0, 0, -1), 30));
    // diagonal
    assert!(b.ray_intersect(&p(-5, -5, -5), &p(1, 1, 1), 10));
    assert!(!b.ray_intersect(&p(-5, 20, -5), &p(1, 1, 1), 10));
    // origin inside
    assert!(b.ray_intersect(&p(5, 5, 5), &p(1, 0, 0), 1));
}

#[test]
fn face_box_bounds_vertices() {
    let f = Face::new(p(3, -1, 7), p(-2, 4, 0), p(5, 2, 9));
    assert_eq!(f.aabb.min, p(-2, -1, 0));
    assert_eq!(f.aabb.max, p(5, 4, 9));
}

#[test]
fn face_ray_through_centroid_hits_centroid() {
    let f = Face::new(p(0, 0, 0), p(30, 0, 0), p(0, 30, 0));
    // along an axis
    assert_hit_at(f.test_ray(&p(10, 10, 50), &p(0, 0, -1), 100), 10, 10, 0);
    // oblique: origin + direction lands on the centroid (10, 10, 0) at t = 1/3
    let o = p(1, 2, 3);
    let d = p(27, 24, -9);
    let h = hit_of(f.test_ray(&o, &d, 1));
    assert_eq!(h.t_num * 3, h.denom);
    assert_eq!(h.x, 10 * h.denom);
    assert_eq!(h.y, 10 * h.denom);
    assert_eq!(h.z, 0);
    // from below, against the winding
    assert_hit_at(f.test_ray(&p(10, 10, -50), &p(0, 0, 1), 100), 10, 10, 0);
}

#[test]
fn face_ray_shorter_than_the_hit_misses() {
    let f = Face::new(p(0, 0, 0), p(30, 0, 0), p(0, 30, 0));
    assert_eq!(f.test_ray(&p(10, 10, 50), &p(0, 0, -1), 49), CollisionResult::Nothing);
    assert_eq!(f.test_ray(&p(1, 2, 3), &p(27, 24, -9), 0), CollisionResult::Nothing);
}

#[test]
fn face_ray_misses_outside_parallel_and_behind() {
    let f = Face::new(p(0, 0, 0), p(30, 0, 0), p(0, 30, 0));
    assert_eq!(f.test_ray(&p(20, 20, 50), &p(0, 0, -1), 100), CollisionResult::Nothing);
    assert_eq!(f.test_ray(&p(5, 5, 5), &p(1, 0, 0), 100), CollisionResult::Nothing);
    assert_eq!(f.test_ray(&p(5, 5, 5), &p(0, 0, 1), 100), CollisionResult::Nothing);
    // edges count
    assert_hit_at(f.test_ray(&p(15, 15, 10), &p(0, 0, -1), 100), 15, 15, 0);
    // degenerate triangle
    let g = Face::new(p(0, 0, 0), p(10, 0, 0), p(20, 0, 0));
    assert_eq!(g.test_ray(&p(5, 0, 10), &p(0, 0, -1), 100), CollisionResult::Nothing);
}

#[test]
fn world_single_triangle_scenario() {
    let mut world = StaticWorld::new(NodeSize::Size64);
    let mesh = triangle(p(0, 0, 0), p(10, 0, 0), p(0, 10, 0));
    assert_eq!(world.add_mesh(&mesh), Ok(()));
    assert_eq!(world.face_count(), 1);
    assert_hit_at(world.test_ray(&p(1, 1, 100), &p(0, 0, -1), 200), 1, 1, 0);
    assert_eq!(world.test_ray(&p(50, 50, 100), &p(0, 0, -1), 200), CollisionResult::Nothing);
}

#[test]
fn world_finds_every_triangle_and_no_gap() {
    let mut world = StaticWorld::new(NodeSize::Size16);
    let mut mesh = Vec::new();
    // six triangles spread over many cells, some across cell borders and below zero
    let origins = [(0, 0), (40, 0), (100, 37), (-50, -50), (14, 90), (-200, 300)];
    for (x, y) in origins.iter() {
        mesh.push(p(*x, *y, 5));
        mesh.push(p(x + 10, *y, 5));
        mesh.push(p(*x, y + 10, 5));
    }
    assert_eq!(world.add_mesh(&mesh), Ok(()));
    assert_eq!(world.face_count(), 6);
    for (x, y) in origins.iter() {
        let x = *x as i64;
        let y = *y as i64;
        assert_hit_at(world.test_ray(&p(x + 2, y + 2, 400), &p(0, 0, -1), 500), (x + 2) as i128, (y + 2) as i128, 5);
        assert_hit_at(world.test_ray(&p(x + 2, y + 2, -400), &p(0, 0, 1), 500), (x + 2) as i128, (y + 2) as i128, 5);
    }
    assert_eq!(world.test_ray(&p(25, 25, 400), &p(0, 0, -1), 500), CollisionResult::Nothing);
    assert_eq!(world.test_ray(&p(-10, 200, 400), &p(0, 0, -1), 500), CollisionResult::Nothing);
    // an oblique ray crossing many cells before it meets a triangle
    assert_hit_at(world.test_ray(&p(-148, -48, 105), &p(1, 0, -1), 200), -48, -48, 5);
}

#[test]
fn world_oblique_ray_across_cells() {
    let mut world = StaticWorld::new(NodeSize::Size32);
    let mesh = triangle(p(100, 100, 0), p(120, 100, 0), p(100, 120, 0));
    assert_eq!(world.add_mesh(&mesh), Ok(()));
    let h = hit_of(world.test_ray(&p(0, 0, 100), &p(1, 1, -1), 200));
    assert_eq!(h.x, 100 * h.denom);
    assert_eq!(h.y, 100 * h.denom);
    assert_eq!(h.z, 0);
    assert_eq!(world.test_ray(&p(0, 0, 100), &p(1, 1, -1), 99), CollisionResult::Nothing);
}

#[test]
fn world_rejects_oversized_face_without_change() {
    let mut world = StaticWorld::new(NodeSize::Size16);
    assert_eq!(world.add_mesh(&triangle(p(0, 0, 0), p(5, 0, 0), p(0, 5, 0))), Ok(()));
    let mesh = vec![
        p(0, 0, 10), p(5, 0, 10), p(0, 5, 10),
        p(0, 0, 20), p(17, 0, 20), p(0, 5, 20),
    ];
    assert_eq!(world.add_mesh(&mesh), Err(WorldError::OversizedGeometry));
    assert_eq!(world.face_count(), 1);
    assert_eq!(world.test_ray(&p(1, 1, 15), &p(0, 0, -1), 3), CollisionResult::Nothing);
    // exactly a cell long is accepted
    assert_eq!(world.add_mesh(&triangle(p(0, 0, 30), p(16, 0, 30), p(0, 16, 30))), Ok(()));
    assert_eq!(world.face_count(), 2);
}

#[test]
fn world_rejects_incomplete_triangle_list() {
    let mut world = StaticWorld::new(NodeSize::Size64);
    let mesh = vec![p(0, 0, 0), p(10, 0, 0), p(0, 10, 0), p(1, 1, 1)];
    assert_eq!(world.add_mesh(&mesh), Err(WorldError::InvalidGeometry));
    assert_eq!(world.face_count(), 0);
    assert_eq!(world.add_mesh(&Vec::new()), Ok(()));
    assert_eq!(world.face_count(), 0);
}

#[test]
fn world_returns_nearest_of_stacked_triangles() {
    let mut world = StaticWorld::new(NodeSize::Size64);
    let mut mesh = triangle(p(0, 0, 0), p(10, 0, 0), p(0, 10, 0));
    mesh.extend(triangle(p(0, 0, 10), p(10, 0, 10), p(0, 10, 10)));
    assert_eq!(world.add_mesh(&mesh), Ok(()));
    assert_hit_at(world.test_ray(&p(1, 1, 100), &p(0, 0, -1), 200), 1, 1, 10);
    assert_hit_at(world.test_ray(&p(1, 1, -100), &p(0, 0, 1), 200), 1, 1, 0);
    assert_hit_at(world.test_ray(&p(1, 1, 5), &p(0, 0, -1), 200), 1, 1, 0);
}

#[test]
fn node_sizes() {
    assert_eq!(NodeSize::Size16.value(), 16);
    assert_eq!(NodeSize::Size1024.value(), 1024);
    assert_eq!(NodeSize::Size4096.value(), 4096);
    assert_eq!(NodeSize::Size8192.value(), 8192);
}

#[test]
fn face_is_registered_once_per_corner_cell() {
    let mut world = StaticWorld::new(NodeSize::Size16);
    // every corner in cell (0, 0, 0): registered there once
    assert_eq!(world.add_mesh(&triangle(p(1, 1, 1), p(10, 1, 1), p(1, 10, 1))), Ok(()));
    assert_eq!(world.cell_face_count(&p(0, 0, 0)), 1);
    assert_eq!(world.cell_face_count(&p(16, 0, 0)), 0);
    // spanning the border x = 16: once in each of the two cells
    assert_eq!(world.add_mesh(&triangle(p(10, 2, 2), p(20, 2, 2), p(10, 8, 2))), Ok(()));
    assert_eq!(world.cell_face_count(&p(0, 0, 0)), 2);
    assert_eq!(world.cell_face_count(&p(16, 0, 0)), 1);
    // spanning borders on all three axes, below zero: eight cells once each
    assert_eq!(world.add_mesh(&triangle(p(-2, -2, -2), p(3, -2, 3), p(-2, 3, 3))), Ok(()));
    for x in [-16i64, 0] {
        for y in [-16i64, 0] {
            for z in [-16i64, 0] {
                let expected = if x == 0 && y == 0 && z == 0 { 3 } else { 1 };
                assert_eq!(world.cell_face_count(&p(x, y, z)), expected);
            }
        }
    }
    assert_eq!(world.cell_face_count(&p(32, 0, 0)), 0);
    assert_eq!(world.cell_face_count(&p(1_000_000, 0, 0)), 0);
    // a rejected mesh leaves every cell as it was
    let bad = vec![p(0, 0, 0), p(5, 0, 0), p(0, 5, 0), p(0, 0, 0), p(40, 0, 0), p(0, 5, 0)];
    assert_eq!(world.add_mesh(&bad), Err(WorldError::OversizedGeometry));
    assert_eq!(world.cell_face_count(&p(0, 0, 0)), 3);
    assert_eq!(world.face_count(), 3);
}
