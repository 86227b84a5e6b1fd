use map_cache::geom::GeoRect;
use map_cache::geom::WorldPoint;
use map_cache::geom::WorldSpaceRect;
use map_cache::geom::is_point_in_polygon;
use map_cache::geom::tile_range;

fn rect(left: i64, bottom: i64, right: i64, top: i64) -> WorldSpaceRect {
    WorldSpaceRect { left, right, bottom, top }
}

fn area(r: &WorldSpaceRect) -> i64 {
    if r.left < r.right && r.bottom < r.top {
        (r.right - r.left) * (r.top - r.bottom)
    } else {
        0
    }
}

#[test]
fn overlap_detection() {
    let a = rect(0, 0, 10, 10);
    assert!(a.overlaps(&rect(5, 5, 15, 15)));
    assert!(!a.overlaps(&rect(10, 0, 20, 10)), "touching edges share no point");
    assert!(!a.overlaps(&rect(20, 20, 30, 30)));
    assert!(!a.overlaps(&rect(5, 5, 5, 15)), "an empty rectangle overlaps nothing");
}

#[test]
fn split_disjoint_returns_original() {
    let a = rect(0, 0, 10, 10);
    let pieces = a.split_single(&rect(20, 20, 30, 30));
    assert_eq!(pieces.len(), 1);
    assert_eq!(pieces[0], a);
}

#[test]
fn split_contained_returns_empty() {
    let a = rect(2, 2, 8, 8);
    let pieces = a.split_single(&rect(0, 0, 10, 10));
    assert!(pieces.is_empty());
}

#[test]
fn split_corner_overlap_areas() {
    // Corner overlap: area(a) == sum of piece areas + overlap area.
    let a = rect(0, 0, 10, 10);
    let b = rect(5, 5, 15, 15);
    let pieces = a.split_single(&b);
    let total: i64 = pieces.iter().map(area).sum();
    let overlap = 5 * 5;
    assert_eq!(area(&a), total + overlap);
    assert!(pieces.len() <= 4);
}

#[test]
fn split_middle_hole_areas() {
    // b strictly inside a: four pieces around the hole.
    let a = rect(0, 0, 10, 10);
    let b = rect(3, 3, 7, 7);
    let pieces = a.split_single(&b);
    assert_eq!(pieces.len(), 4);
    let total: i64 = pieces.iter().map(area).sum();
    assert_eq!(area(&a), total + 16);
}

#[test]
fn split_many_covers_all() {
    // Two halves cover the whole: nothing remains.
    let a = rect(0, 0, 10, 10);
    let halves = vec![rect(0, 0, 10, 5), rect(0, 5, 10, 10)];
    assert!(a.split(&halves).is_empty());
    // With a gap between the halves something remains.
    let gapped = vec![rect(0, 0, 10, 4), rect(0, 6, 10, 10)];
    let remainder = a.split(&gapped);
    assert!(!remainder.is_empty());
    let left_over: i64 = remainder.iter().map(area).sum();
    assert_eq!(left_over, 10 * 2);
}

#[test]
fn geo_rect_intersection_is_closed() {
    let a = GeoRect { south: 0, west: 0, north: 10, east: 10 };
    let b = GeoRect { south: 10, west: 10, north: 20, east: 20 };
    assert!(a.intersects(&b), "closed boxes touching at a corner intersect");
    let c = GeoRect { south: 11, west: 11, north: 20, east: 20 };
    assert!(!a.intersects(&c));
}

#[test]
fn point_in_polygon_square() {
    let square = vec![
        WorldPoint { x: 0, y: 0 },
        WorldPoint { x: 10, y: 0 },
        WorldPoint { x: 10, y: 10 },
        WorldPoint { x: 0, y: 10 },
    ];
    assert!(is_point_in_polygon(&WorldPoint { x: 5, y: 5 }, &square));
    assert!(!is_point_in_polygon(&WorldPoint { x: 15, y: 5 }, &square));
    assert!(!is_point_in_polygon(&WorldPoint { x: 5, y: -1 }, &square));
}

#[test]
fn point_in_polygon_needs_three_vertices() {
    let line = vec![WorldPoint { x: 0, y: 0 }, WorldPoint { x: 10, y: 10 }];
    assert!(!is_point_in_polygon(&WorldPoint { x: 5, y: 5 }, &line));
}

#[test]
fn point_in_polygon_concave() {
    // A U-shape: the notch is outside, the arms are inside.
    let u = vec![
        WorldPoint { x: 0, y: 0 },
        WorldPoint { x: 30, y: 0 },
        WorldPoint { x: 30, y: 30 },
        WorldPoint { x: 20, y: 30 },
        WorldPoint { x: 20, y: 10 },
        WorldPoint { x: 10, y: 10 },
        WorldPoint { x: 10, y: 30 },
        WorldPoint { x: 0, y: 30 },
    ];
    assert!(is_point_in_polygon(&WorldPoint { x: 5, y: 20 }, &u));
    assert!(!is_point_in_polygon(&WorldPoint { x: 15, y: 20 }, &u));
    assert!(is_point_in_polygon(&WorldPoint { x: 15, y: 5 }, &u));
}

#[test]
fn split_of_empty_rectangle_is_empty() {
    let empty = rect(3, 3, 3, 7);
    assert!(empty.split_single(&rect(0, 0, 10, 10)).is_empty());
    assert!(empty.split(&vec![rect(0, 0, 1, 1)]).is_empty());
}

#[test]
fn split_with_no_subtrahends_returns_original() {
    let a = rect(0, 0, 10, 10);
    let pieces = a.split(&Vec::new());
    assert_eq!(pieces.len(), 1);
    assert_eq!(pieces[0], a);
}

#[test]
fn split_many_pieces_are_disjoint() {
    // Subtract two overlapping rectangles; the remainder pieces must not
    // share any unit cell.
    let a = rect(0, 0, 10, 10);
    let pieces = a.split(&vec![rect(2, 2, 6, 6), rect(4, 4, 8, 8)]);
    for x in 0..10i64 {
        for y in 0..10i64 {
            let hits = pieces
                .iter()
                .filter(|p| p.left <= x && x < p.right && p.bottom <= y && y < p.top)
                .count();
            assert!(hits <= 1, "cell ({}, {}) covered {} times", x, y, hits);
        }
    }
}

#[test]
fn tile_range_enumerates_the_grid() {
    assert_eq!(tile_range(2, 5, 3, 6), vec![(2, 5), (2, 6), (3, 5), (3, 6)]);
    assert_eq!(tile_range(1, 1, 1, 1), vec![(1, 1)]);
    assert!(tile_range(4, 0, 3, 9).is_empty());
}
