use particle_life::fixed::SCALE;
use particle_life::geometry::{Region, Vec2};
use particle_life::particle::{Particle, TypeTag};
use particle_life::partition::QuadTree;

fn region(x: i64, y: i64, w: i64, h: i64) -> Region {
    Region { origin: Vec2 { x, y }, width: w, height: h }
}

fn part(x: i64, y: i64) -> Particle {
    Particle { position: Vec2 { x, y }, velocity: Vec2 { x: 0, y: 0 }, kind: TypeTag::Red }
}

fn sorted_positions(found: &[Particle]) -> Vec<(i64, i64)> {
    let mut v: Vec<(i64, i64)> = found.iter().map(|p| (p.position.x, p.position.y)).collect();
    v.sort();
    v
}

#[test]
fn insert_then_full_query_returns_all() {
    let boundary = region(0, 0, 100 * SCALE, 100 * SCALE);
    let mut tree = QuadTree::new(boundary, 2);
    let points = [
        (10 * SCALE, 10 * SCALE),
        (20 * SCALE, 80 * SCALE),
        (80 * SCALE, 20 * SCALE),
        (80 * SCALE, 80 * SCALE),
        (50 * SCALE, 50 * SCALE),
    ];
    for &(x, y) in points.iter() {
        assert!(tree.insert(part(x, y)).is_none());
    }
    let found = tree.query(&boundary);
    assert_eq!(found.len(), 5);
    let mut expected: Vec<(i64, i64)> = points.to_vec();
    expected.sort();
    assert_eq!(sorted_positions(&found), expected);
}

#[test]
fn insert_outside_boundary_is_rejected() {
    let boundary = region(0, 0, 100 * SCALE, 100 * SCALE);
    let mut tree = QuadTree::new(boundary, 4);
    assert!(tree.insert(part(10 * SCALE, 10 * SCALE)).is_none());
    let outsider = part(200 * SCALE, 50 * SCALE);
    let rejected = tree.insert(outsider);
    assert_eq!(rejected, Some(outsider));
    let found = tree.query(&boundary);
    assert_eq!(found.len(), 1);
    assert_eq!(found[0].position.x, 10 * SCALE);
}

#[test]
fn subdivision_quarters_the_boundary() {
    let boundary = region(0, 0, 100 * SCALE, 100 * SCALE);
    let mut tree = QuadTree::new(boundary, 1);
    assert!(tree.insert(part(10 * SCALE, 10 * SCALE)).is_none());
    assert!(tree.insert(part(80 * SCALE, 80 * SCALE)).is_none());
    assert!(tree.divided);
    let half = 50 * SCALE;
    let tl = tree.top_left.as_ref().unwrap();
    let tr = tree.top_right.as_ref().unwrap();
    let bl = tree.bottom_left.as_ref().unwrap();
    let br = tree.bottom_right.as_ref().unwrap();
    assert_eq!((tl.boundary.origin.x, tl.boundary.origin.y), (0, 0));
    assert_eq!((tr.boundary.origin.x, tr.boundary.origin.y), (half, 0));
    assert_eq!((bl.boundary.origin.x, bl.boundary.origin.y), (0, half));
    assert_eq!((br.boundary.origin.x, br.boundary.origin.y), (half, half));
    for child in [tl, tr, bl, br] {
        assert_eq!(child.boundary.width, half);
        assert_eq!(child.boundary.height, half);
    }
}

#[test]
fn query_returns_exactly_the_particles_in_range() {
    let boundary = region(0, 0, 100 * SCALE, 100 * SCALE);
    let mut tree = QuadTree::new(boundary, 2);
    for i in 1..=3i64 {
        for j in 1..=3i64 {
            assert!(tree.insert(part(i * 10 * SCALE, j * 10 * SCALE)).is_none());
        }
    }
    let range = region(5 * SCALE, 5 * SCALE, 20 * SCALE, 20 * SCALE);
    let found = tree.query(&range);
    let expected = vec![
        (10 * SCALE, 10 * SCALE),
        (10 * SCALE, 20 * SCALE),
        (20 * SCALE, 10 * SCALE),
        (20 * SCALE, 20 * SCALE),
    ];
    assert_eq!(sorted_positions(&found), expected);
}

#[test]
fn midline_point_is_stored_once() {
    let boundary = region(0, 0, 100 * SCALE, 100 * SCALE);
    let mut tree = QuadTree::new(boundary, 1);
    assert!(tree.insert(part(10 * SCALE, 10 * SCALE)).is_none());
    assert!(tree.insert(part(80 * SCALE, 80 * SCALE)).is_none());
    assert!(tree.insert(part(50 * SCALE, 50 * SCALE)).is_none());
    let found = tree.query(&boundary);
    assert_eq!(found.len(), 3);
    let on_midline = found
        .iter()
        .filter(|p| p.position.x == 50 * SCALE && p.position.y == 50 * SCALE)
        .count();
    assert_eq!(on_midline, 1);
}

#[test]
fn clear_then_query_is_empty() {
    let boundary = region(0, 0, 100 * SCALE, 100 * SCALE);
    let mut tree = QuadTree::new(boundary, 1);
    for i in 0..10i64 {
        assert!(tree.insert(part(i * 9 * SCALE, i * 9 * SCALE)).is_none());
    }
    tree.clear();
    assert!(tree.query(&boundary).is_empty());
    assert!(!tree.divided);
    assert_eq!(tree.boundary.width, 100 * SCALE);
}

#[test]
fn coincident_points_beyond_capacity_are_absorbed() {
    let boundary = region(0, 0, 100 * SCALE, 100 * SCALE);
    let mut tree = QuadTree::new(boundary, 1);
    for _ in 0..35 {
        assert!(tree.insert(part(0, 0)).is_none());
    }
    let found = tree.query(&boundary);
    assert_eq!(found.len(), 35);
}

#[test]
fn disjoint_query_returns_empty() {
    let boundary = region(0, 0, 100 * SCALE, 100 * SCALE);
    let mut tree = QuadTree::new(boundary, 4);
    assert!(tree.insert(part(10 * SCALE, 10 * SCALE)).is_none());
    let far = region(200 * SCALE, 200 * SCALE, 10 * SCALE, 10 * SCALE);
    assert!(tree.query(&far).is_empty());
}

#[test]
fn region_check_wf_rejects_bad_rectangles() {
    assert!(region(0, 0, 100 * SCALE, 100 * SCALE).check_wf());
    assert!(!region(0, 0, -1, 100).check_wf());
    assert!(!region(i64::MAX - 5, 0, 100, 100).check_wf());
}
