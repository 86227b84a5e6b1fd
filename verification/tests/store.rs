use map_cache::coverage::SpatialIndex;
use map_cache::feature::FeatureStore;
use map_cache::feature::GeoPoint;
use map_cache::feature::MapFeature;
use map_cache::feature::RawElement;
use map_cache::feature::TagMap;
use map_cache::feature::features_from_elements;
use map_cache::feature::str_matches_fold;
use map_cache::feature::feature_contains_point;
use map_cache::feature::find_clicked;
use map_cache::geom::GeoRect;
use map_cache::geom::WorldPoint;
use map_cache::geom::WorldSpaceRect;

fn rect(left: i64, bottom: i64, right: i64, top: i64) -> WorldSpaceRect {
    WorldSpaceRect { left, right, bottom, top }
}

fn tags(pairs: &[(&str, &str)]) -> TagMap {
    let mut t = TagMap::new();
    for (k, v) in pairs {
        t.insert((*k).to_owned(), (*v).to_owned());
    }
    t
}

fn feature(id: &str, pairs: &[(&str, &str)], points: &[(i64, i64)]) -> MapFeature {
    let ring: Vec<GeoPoint> = points.iter().map(|&(lat, lon)| GeoPoint { lat, lon }).collect();
    MapFeature::new(id.to_owned(), tags(pairs), vec![ring]).expect("feature must have points")
}

#[test]
fn coverage_starts_empty() {
    // A fresh index covers nothing.
    let index = SpatialIndex::new();
    assert!(!index.is_covered(&rect(0, 0, 10, 10)));
    assert!(!index.is_covered(&rect(-5, -5, -1, -1)));
    assert!(index.query(&rect(0, 0, 10, 10)).is_empty());
}

#[test]
fn coverage_after_insert() {
    let mut index = SpatialIndex::new();
    let r = rect(0, 0, 10, 10);
    index.insert(r);
    assert!(index.is_covered(&r));
    assert!(index.is_covered(&rect(2, 2, 8, 8)), "a sub-rectangle is covered too");
    assert!(!index.is_covered(&rect(20, 20, 30, 30)), "a disjoint rectangle is not");
    assert!(!index.is_covered(&rect(5, 5, 15, 15)), "a partly outside rectangle is not");
}

#[test]
fn coverage_insert_is_idempotent() {
    let mut once = SpatialIndex::new();
    once.insert(rect(0, 0, 10, 10));
    let mut twice = SpatialIndex::new();
    twice.insert(rect(0, 0, 10, 10));
    twice.insert(rect(0, 0, 10, 10));
    for probe in [rect(0, 0, 10, 10), rect(5, 5, 15, 15), rect(20, 20, 25, 25)] {
        assert_eq!(once.is_covered(&probe), twice.is_covered(&probe));
    }
}

#[test]
fn coverage_is_monotonic() {
    let mut index = SpatialIndex::new();
    index.insert(rect(0, 0, 10, 10));
    assert!(index.is_covered(&rect(1, 1, 9, 9)));
    index.insert(rect(100, 100, 200, 200));
    index.insert(rect(-50, -50, -40, -40));
    assert!(index.is_covered(&rect(1, 1, 9, 9)), "more rectangles never uncover");
}

#[test]
fn coverage_from_union_of_pieces() {
    // No single rectangle covers the probe, but their union does.
    let mut index = SpatialIndex::new();
    index.insert_vec(vec![rect(0, 0, 6, 10), rect(5, 0, 10, 6), rect(4, 5, 10, 10)]);
    assert!(index.is_covered(&rect(0, 0, 10, 10)));
    assert!(!index.is_covered(&rect(0, 0, 11, 10)));
}

#[test]
fn coverage_split_reports_remainder() {
    let mut index = SpatialIndex::new();
    index.insert(rect(0, 0, 10, 5));
    let remainder = index.split(&rect(0, 0, 10, 10));
    assert_eq!(remainder.len(), 1);
    assert_eq!(remainder[0], rect(0, 5, 10, 10));
}

#[test]
fn empty_rectangle_is_trivially_covered() {
    let index = SpatialIndex::new();
    assert!(index.is_covered(&rect(3, 3, 3, 7)));
}

#[test]
fn merge_deduplicates_by_exact_id() {
    // Two features under id "way/42" with different tags: the first wins.
    let mut store = FeatureStore::new();
    let first = feature("way/42", &[("building", "house")], &[(10, 10), (10, 20), (20, 20)]);
    let second = feature("way/42", &[("building", "church")], &[(30, 30), (40, 40), (50, 30)]);
    let added = store.merge(vec![first, second]);
    assert_eq!(added, 1);
    assert_eq!(store.len(), 1);
    let everywhere = GeoRect { south: i64::MIN / 2, west: i64::MIN / 2, north: i64::MAX / 2, east: i64::MAX / 2 };
    let found = store.query_viewport(&everywhere);
    assert_eq!(found.len(), 1);
    assert_eq!(found[0].id, "way/42");
    assert_eq!(found[0].properties.get("building").map(String::as_str), Some("house"));
}

#[test]
fn merge_substring_ids_are_distinct() {
    // "way/4" is not "way/42": substring containment must not deduplicate.
    let mut store = FeatureStore::new();
    let a = feature("way/42", &[], &[(0, 0), (1, 1), (0, 1)]);
    let b = feature("way/4", &[], &[(5, 5), (6, 6), (5, 6)]);
    assert_eq!(store.merge(vec![a, b]), 2);
    assert!(store.contains_id(&"way/42".to_owned()));
    assert!(store.contains_id(&"way/4".to_owned()));
    assert!(!store.contains_id(&"way/424".to_owned()));
}

#[test]
fn merge_never_mutates_existing() {
    let mut store = FeatureStore::new();
    let original = feature("n/1", &[("natural", "water")], &[(100, 100), (110, 110), (100, 110)]);
    store.merge(vec![original]);
    let intruder = feature("n/1", &[("natural", "wood")], &[(900, 900), (910, 910), (900, 910)]);
    assert_eq!(store.merge(vec![intruder]), 0);
    let all = GeoRect { south: 0, west: 0, north: 1000, east: 1000 };
    let found = store.query_viewport(&all);
    assert_eq!(found.len(), 1);
    assert_eq!(found[0].properties.get("natural").map(String::as_str), Some("water"));
    assert_eq!(found[0].envelope(), GeoRect { south: 100, west: 100, north: 110, east: 110 });
}

#[test]
fn query_viewport_filters_by_bounding_box() {
    let mut store = FeatureStore::new();
    store.merge(vec![
        feature("a", &[], &[(0, 0), (10, 10), (0, 10)]),
        feature("b", &[], &[(100, 100), (110, 110), (100, 110)]),
        feature("c", &[], &[(0, 100), (10, 110), (0, 110)]),
    ]);
    let window = GeoRect { south: -5, west: -5, north: 20, east: 20 };
    let found = store.query_viewport(&window);
    assert_eq!(found.len(), 1);
    assert_eq!(found[0].id, "a");
}

#[test]
fn feature_envelope_is_tight() {
    let f = feature("x", &[], &[(52, 7), (50, 9), (51, 3)]);
    assert_eq!(f.envelope(), GeoRect { south: 50, west: 3, north: 52, east: 9 });
}

#[test]
fn feature_needs_geometry() {
    assert!(MapFeature::new("empty".to_owned(), TagMap::new(), vec![]).is_none());
    assert!(MapFeature::new("empty".to_owned(), TagMap::new(), vec![vec![], vec![]]).is_none());
}

#[test]
fn elements_without_points_are_dropped() {
    let good = RawElement {
        id: "way/1".to_owned(),
        properties: tags(&[("highway", "primary")]),
        geometry: vec![vec![GeoPoint { lat: 1, lon: 2 }, GeoPoint { lat: 3, lon: 4 }]],
    };
    let empty = RawElement { id: "way/2".to_owned(), properties: TagMap::new(), geometry: vec![vec![]] };
    let features = features_from_elements(vec![empty, good]);
    assert_eq!(features.len(), 1);
    assert_eq!(features[0].id, "way/1");
    assert_eq!(features[0].envelope(), GeoRect { south: 1, west: 2, north: 3, east: 4 });
}

#[test]
fn tag_lookup_folds_ascii_case() {
    let t = tags(&[("Highway", "Primary"), ("name", "High Street")]);
    assert_eq!(t.get("highway").map(String::as_str), Some("Primary"));
    assert_eq!(t.get("HIGHWAY").map(String::as_str), Some("Primary"));
    assert_eq!(t.get("NAME").map(String::as_str), Some("High Street"));
    assert_eq!(t.get("building"), None);
    assert!(str_matches_fold("Motorway", "mOtOrWaY"));
    assert!(!str_matches_fold("way", "ways"));
}

fn lcg(state: &mut u64) -> u64 {
    *state = state
        .wrapping_mul(6364136223846793005)
        .wrapping_add(1442695040888963407);
    *state >> 33
}

fn brute_covered(rects: &[WorldSpaceRect], q: &WorldSpaceRect) -> bool {
    for x in q.left..q.right {
        for y in q.bottom..q.top {
            let hit = rects
                .iter()
                .any(|r| r.left <= x && x < r.right && r.bottom <= y && y < r.top);
            if !hit {
                return false;
            }
        }
    }
    true
}

#[test]
fn coverage_matches_point_by_point_check() {
    // Small random rectangles over a 12x12 board: the index must agree with
    // checking every unit cell of the probe against the inserted list.
    let mut state: u64 = 7;
    let mut index = SpatialIndex::new();
    let mut inserted: Vec<WorldSpaceRect> = Vec::new();
    for round in 0..120 {
        let l = (lcg(&mut state) % 12) as i64;
        let b = (lcg(&mut state) % 12) as i64;
        let w = (lcg(&mut state) % 4) as i64 + 1;
        let h = (lcg(&mut state) % 4) as i64 + 1;
        let r = rect(l, b, l + w, b + h);
        index.insert(r);
        inserted.push(r);
        if round % 5 == 0 {
            let ql = (lcg(&mut state) % 10) as i64;
            let qb = (lcg(&mut state) % 10) as i64;
            let qw = (lcg(&mut state) % 5) as i64 + 1;
            let qh = (lcg(&mut state) % 5) as i64 + 1;
            let probe = rect(ql, qb, ql + qw, qb + qh);
            assert_eq!(
                index.is_covered(&probe),
                brute_covered(&inserted, &probe),
                "disagreement on probe {:?} after {} inserts",
                probe,
                inserted.len()
            );
        }
    }
}

#[test]
fn query_returns_exactly_the_touching_rects() {
    let mut index = SpatialIndex::new();
    let stored = vec![rect(0, 0, 5, 5), rect(5, 5, 10, 10), rect(20, 20, 25, 25), rect(3, 3, 4, 4)];
    for r in &stored {
        index.insert(*r);
    }
    let probe = rect(4, 4, 6, 6);
    let mut got: Vec<(i64, i64, i64, i64)> = index
        .query(&probe)
        .iter()
        .map(|r| (r.left, r.bottom, r.right, r.top))
        .collect();
    got.sort();
    // Closed-box intersection: everything but the far rectangle touches.
    let mut want: Vec<(i64, i64, i64, i64)> = stored
        .iter()
        .filter(|r| r.left <= probe.right && r.bottom <= probe.top && r.right >= probe.left && r.top >= probe.bottom)
        .map(|r| (r.left, r.bottom, r.right, r.top))
        .collect();
    want.sort();
    assert_eq!(got, want);
    assert_eq!(got.len(), 3);
}

#[test]
fn click_lookup_takes_first_containing_feature() {
    // Two overlapping squares (x is longitude, y latitude): a click where
    // they overlap picks the one listed first.
    let lower = feature("a", &[], &[(0, 0), (0, 10), (10, 10), (10, 0)]);
    let upper = feature("b", &[], &[(5, 5), (5, 15), (15, 15), (15, 5)]);
    assert!(feature_contains_point(&lower, WorldPoint { x: 6, y: 6 }));
    assert!(!feature_contains_point(&lower, WorldPoint { x: 12, y: 12 }));
    let list = vec![&lower, &upper];
    assert_eq!(find_clicked(&list, WorldPoint { x: 6, y: 6 }).map(|f| f.id.as_str()), Some("a"));
    assert_eq!(find_clicked(&list, WorldPoint { x: 12, y: 12 }).map(|f| f.id.as_str()), Some("b"));
    assert!(find_clicked(&list, WorldPoint { x: 30, y: 30 }).is_none());
}

#[test]
fn feature_rejects_out_of_range_coordinates() {
    // A coordinate beyond the spatial index's bound refuses the feature;
    // every real geographic coordinate (degrees scaled by a million) is
    // accepted.
    let huge = vec![vec![GeoPoint { lat: 0, lon: 1 << 40 }]];
    assert!(MapFeature::new("x".to_owned(), TagMap::new(), huge).is_none());
    let whole_world = vec![vec![
        GeoPoint { lat: -90_000_000, lon: -180_000_000 },
        GeoPoint { lat: 90_000_000, lon: 180_000_000 },
    ]];
    assert!(MapFeature::new("y".to_owned(), TagMap::new(), whole_world).is_some());
}
