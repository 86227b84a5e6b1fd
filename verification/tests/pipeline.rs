use map_cache::bundle::MapBundle;
use map_cache::feature::GeoPoint;
use map_cache::feature::MapFeature;
use map_cache::feature::TagMap;
use map_cache::geom::GeoRect;
use map_cache::geom::WorldSpaceRect;
use map_cache::query::build_overpass_query;
use map_cache::query::dec6_string;
use map_cache::settings::Category;
use map_cache::settings::Color;
use map_cache::settings::SettingsOverlay;
use map_cache::settings::TagToggle;
use map_cache::style::resolve;

fn category(name: &str, key: &str, all: bool, items: &[(&str, bool)]) -> Category {
    Category {
        name: name.to_owned(),
        key: key.to_owned(),
        disabled: false,
        all,
        items: items
            .iter()
            .map(|&(value, enabled)| TagToggle {
                value: value.to_owned(),
                enabled,
                color: Color { r: 200, g: 150, b: 100 },
            })
            .collect(),
    }
}

fn feature(id: &str, pairs: &[(&str, &str)]) -> MapFeature {
    let mut t = TagMap::new();
    for (k, v) in pairs {
        t.insert((*k).to_owned(), (*v).to_owned());
    }
    let ring = vec![
        GeoPoint { lat: 10, lon: 10 },
        GeoPoint { lat: 20, lon: 20 },
        GeoPoint { lat: 10, lon: 20 },
    ];
    MapFeature::new(id.to_owned(), t, vec![ring]).unwrap()
}

#[test]
fn decimal_rendering_is_exact() {
    assert_eq!(dec6_string(52_192_370), "52.192370");
    assert_eq!(dec6_string(-149_412), "-0.149412");
    assert_eq!(dec6_string(0), "0.000000");
    assert_eq!(dec6_string(1_000_000), "1.000000");
    assert_eq!(dec6_string(-180_000_000), "-180.000000");
}

#[test]
fn query_document_exact_text() {
    let settings = SettingsOverlay { categories: vec![category("Highway", "highway", true, &[])] };
    let bounds = vec![GeoRect {
        south: 52_100_000,
        west: 100_000,
        north: 52_200_000,
        east: 200_000,
    }];
    let doc = build_overpass_query(&bounds, &settings).expect("one clause expected");
    assert_eq!(
        doc,
        "[out:json];(way[\"highway\"](52.100000,0.100000,52.200000,0.200000););(._;>;);out body geom;"
    );
}

#[test]
fn query_specific_values_and_wildcard_wins() {
    // A wildcard category contributes one clause; specific values only
    // where the category is not wildcard-enabled.
    let settings = SettingsOverlay {
        categories: vec![
            category("Highway", "highway", false, &[("primary", true), ("footway", false)]),
            category("Building", "building", true, &[("house", true)]),
        ],
    };
    let bounds = vec![GeoRect { south: 0, west: 0, north: 1_000_000, east: 1_000_000 }];
    let doc = build_overpass_query(&bounds, &settings).unwrap();
    assert_eq!(
        doc,
        "[out:json];(way[\"highway\"=\"primary\"](0.000000,0.000000,1.000000,1.000000);way[\"building\"](0.000000,0.000000,1.000000,1.000000););(._;>;);out body geom;"
    );
    let listing = settings.get_true_keys_with_category();
    let listing: Vec<(&str, &str)> =
        listing.iter().map(|p| (p.0.as_str(), p.1.as_str())).collect();
    assert_eq!(listing, vec![("highway", "primary"), ("building", "*")]);
}

#[test]
fn query_empty_when_nothing_enabled() {
    let mut disabled = category("Highway", "highway", true, &[]);
    disabled.disabled = true;
    let none_enabled = category("Building", "building", false, &[("house", false)]);
    let settings = SettingsOverlay { categories: vec![disabled, none_enabled] };
    let bounds = vec![GeoRect { south: 0, west: 0, north: 1, east: 1 }];
    assert!(build_overpass_query(&bounds, &settings).is_none());
    assert!(build_overpass_query(&Vec::new(), &settings).is_none());
    assert_eq!(
        settings.get_disabled_categories(),
        vec!["Highway".to_owned()]
    );
}

#[test]
fn set_children_toggles_all_values() {
    let mut c = category("Highway", "highway", false, &[("primary", false), ("footway", false)]);
    c.set_children(true);
    assert!(c.items.iter().all(|t| t.enabled));
    assert_eq!(c.items[0].value, "primary");
    c.set_children(false);
    assert!(c.items.iter().all(|t| !t.enabled));
}

#[test]
fn style_road_under_building() {
    // A road gets no fill and sits below a filled building.
    let settings = SettingsOverlay {
        categories: vec![
            category("Highway", "highway", true, &[]),
            category("Building", "building", true, &[]),
        ],
    };
    let road = feature("way/1", &[("highway", "primary")]);
    let building = feature("way/2", &[("building", "house")]);
    let road_style = resolve(&road, &settings).expect("road matches");
    let building_style = resolve(&building, &settings).expect("building matches");
    assert_eq!(road_style.fill, None);
    assert_eq!(building_style.fill, Some(Color { r: 102, g: 102, b: 102 }));
    assert!(road_style.elevation < building_style.elevation);
}

#[test]
fn style_uses_configured_color_and_width() {
    let settings = SettingsOverlay {
        categories: vec![category("Highway", "highway", false, &[("primary", true)])],
    };
    let road = resolve(&feature("way/1", &[("highway", "primary")]), &settings).unwrap();
    assert_eq!(road.stroke, Color { r: 200, g: 150, b: 100 });
    assert_eq!(road.width_tenths, 55, "major roads draw wider");
    let settings2 = SettingsOverlay {
        categories: vec![category("Highway", "highway", false, &[("service", true)])],
    };
    let lane = resolve(&feature("way/2", &[("highway", "service")]), &settings2).unwrap();
    assert_eq!(lane.width_tenths, 25);
}

#[test]
fn style_excludes_unmatched_features() {
    let settings = SettingsOverlay {
        categories: vec![category("Highway", "highway", false, &[("primary", true)])],
    };
    assert!(resolve(&feature("way/1", &[("waterway", "river")]), &settings).is_none());
    assert!(resolve(&feature("way/2", &[("highway", "footway")]), &settings).is_none());
    let mut grayed = SettingsOverlay {
        categories: vec![category("Highway", "highway", true, &[])],
    };
    grayed.categories[0].disabled = true;
    assert!(resolve(&feature("way/3", &[("highway", "primary")]), &grayed).is_none());
}

#[test]
fn tick_skips_fetch_when_nothing_enabled() {
    // No enabled category: no dispatch, and the coverage index must stay
    // untouched so the region can be fetched once a layer is enabled.
    let mut bundle = MapBundle::new();
    let viewport = WorldSpaceRect { left: 0, right: 100, bottom: 0, top: 100 };
    let geo = GeoRect { south: 0, west: 0, north: 1_000_000, east: 1_000_000 };
    let off = SettingsOverlay { categories: Vec::new() };
    assert!(bundle.plan_fetch(viewport, geo, &off).is_none());
    assert!(!bundle.spatial_index.is_covered(&viewport));

    let on = SettingsOverlay { categories: vec![category("Highway", "highway", true, &[])] };
    let query = bundle.plan_fetch(viewport, geo, &on).expect("uncovered region needs a fetch");
    assert!(query.contains("way[\"highway\"]"));
    assert!(bundle.spatial_index.is_covered(&viewport));
    assert!(
        bundle.plan_fetch(viewport, geo, &on).is_none(),
        "a covered region is never requested again"
    );
}

#[test]
fn tick_merges_results_and_requests_redraw() {
    let mut bundle = MapBundle::new();
    assert!(!bundle.respawn);
    let added = bundle.apply_fetch_result(vec![
        feature("way/1", &[("highway", "primary")]),
        feature("way/1", &[("highway", "footway")]),
        feature("way/2", &[("building", "house")]),
    ]);
    assert_eq!(added, 2);
    assert!(bundle.respawn);
    assert_eq!(bundle.features.len(), 2);
}
